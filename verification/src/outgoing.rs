//! Composing outgoing mail: the checks on recipients and the assembly of the
//! MIME message that is handed to the SMTP transport.
use vstd::prelude::*;

use crate::error::{AppError, AppResult, is_validation};
use crate::models::{Account, SendMessageInput, opt_str_view};
use crate::text::{trim, trim_seq};
use lettre::message::{header::ContentType, Attachment, MultiPart, SinglePart};
use lettre::Message;

verus! {

#[verifier::external_type_specification]
#[verifier::external_body]
pub struct ExMailbox(lettre::message::Mailbox);

#[verifier::external_type_specification]
#[verifier::external_body]
pub struct ExMessage(lettre::Message);

/// Why `lettre` refuses `text` as a mailbox (`Name <user@domain>` or a bare
/// address), as its error displays it, or `None` when it accepts it.
pub uninterp spec fn mailbox_error(text: Seq<char>) -> Option<Seq<char>>;

/// The display name and the address (`user@domain`, as `lettre` writes it)
/// of the mailbox that `lettre` parses from `text`, where it accepts it.
pub uninterp spec fn mailbox_of(text: Seq<char>) -> (Option<Seq<char>>, Seq<char>);

/// A mailbox that `lettre` parsed: its display name and address as text,
/// and the `lettre` value itself, which is handed on when the message is
/// built.
pub struct ParsedMailbox {
    name: Option<String>,
    address: String,
    mailbox: lettre::message::Mailbox,
}

impl View for ParsedMailbox {
    type V = (Option<Seq<char>>, Seq<char>);

    closed spec fn view(&self) -> (Option<Seq<char>>, Seq<char>) {
        (opt_str_view(self.name), self.address@)
    }
}

impl ParsedMailbox {
    /// The display name, if the mailbox has one.
    pub fn name(&self) -> (r: Option<String>)
        ensures
            opt_str_view(r) == self@.0,
    {
        self.name.clone()
    }

    /// The address, `user@domain`.
    pub fn address(&self) -> (r: String)
        ensures
            r@ == self@.1,
    {
        self.address.clone()
    }
}

/// The views of the mailboxes in `v`.
pub open spec fn mailbox_views(v: Seq<ParsedMailbox>) -> Seq<(Option<Seq<char>>, Seq<char>)> {
    v.map_values(|m: ParsedMailbox| m@)
}

/// Parses `text` with `lettre::message::Mailbox`'s `FromStr`, and reads the
/// parsed mailbox's `name` field and its `email` field as `Display` writes
/// it. Whether it fails, the error's text, and the name and address are
/// named.
#[verifier::external_body]
fn mailbox_from_text(text: &str) -> (r: Result<ParsedMailbox, String>)
    ensures
        r is Ok <==> mailbox_error(text@) is None,
        r matches Err(e) ==> mailbox_error(text@) == Some(e@),
        r matches Ok(m) ==> m@ == mailbox_of(text@),
{
    match text.parse::<lettre::message::Mailbox>() {
        Ok(m) => Ok(ParsedMailbox { name: m.name.clone(), address: m.email.to_string(), mailbox: m }),
        Err(err) => Err(err.to_string()),
    }
}

/// The error for an address that does not parse.
pub open spec fn mailbox_problem(value: Seq<char>) -> Option<Seq<char>> {
    match mailbox_error(trim_seq(value)) {
        Some(e) => Some("invalid email address: "@ + e),
        None => None,
    }
}

/// The mailbox that `value`, trimmed, stands for.
pub open spec fn mailbox_value(value: Seq<char>) -> (Option<Seq<char>>, Seq<char>) {
    mailbox_of(trim_seq(value))
}

/// `value`, trimmed, as a mailbox; a refusal is a validation error.
pub fn parse_mailbox(value: &str) -> (r: AppResult<ParsedMailbox>)
    ensures
        match mailbox_problem(value@) {
            Some(msg) => r matches Err(e) && is_validation(e, msg),
            None => r matches Ok(m) && m@ == mailbox_value(value@),
        },
{
    let trimmed = trim(value);
    match mailbox_from_text(trimmed.as_str()) {
        Ok(m) => Ok(m),
        Err(e) => Err(AppError::Validation("invalid email address: ".to_owned().concat(e.as_str()))),
    }
}

/// The first problem among the addresses `values`, in order.
pub open spec fn first_mailbox_problem(values: Seq<String>) -> Option<Seq<char>>
    decreases values.len(),
{
    if values.len() == 0 {
        None
    } else {
        match mailbox_problem(values[0]@) {
            Some(p) => Some(p),
            None => first_mailbox_problem(values.drop_first()),
        }
    }
}

/// The mailboxes that the addresses `values` stand for, in order.
pub open spec fn mailbox_values(values: Seq<String>) -> Seq<(Option<Seq<char>>, Seq<char>)> {
    values.map_values(|s: String| mailbox_value(s@))
}

fn parse_mailboxes(values: &Vec<String>) -> (r: AppResult<Vec<ParsedMailbox>>)
    ensures
        match first_mailbox_problem(values@) {
            Some(msg) => r matches Err(e) && is_validation(e, msg),
            None => r matches Ok(v) && mailbox_views(v@) == mailbox_values(values@),
        },
{
    let mut out: Vec<ParsedMailbox> = Vec::new();
    let mut i: usize = 0;
    assert(values@.skip(0) =~= values@);
    while i < values.len()
        invariant
            i <= values@.len(),
            mailbox_views(out@) == mailbox_values(values@.take(i as int)),
            first_mailbox_problem(values@) == first_mailbox_problem(values@.skip(i as int)),
        decreases values.len() - i,
    {
        assert(values@.skip(i as int)[0] == values@[i as int]);
        assert(values@.skip(i as int).drop_first() =~= values@.skip(i + 1));
        let m = parse_mailbox(values[i].as_str())?;
        let ghost before = mailbox_views(out@);
        out.push(m);
        assert(mailbox_views(out@) =~= before.push(m@));
        assert(mailbox_values(values@.take(i + 1)) =~= mailbox_values(values@.take(i as int)).push(mailbox_value(values@[i as int]@)));
        i = i + 1;
    }
    assert(values@.skip(i as int) =~= Seq::<String>::empty());
    assert(values@.take(i as int) =~= values@);
    Ok(out)
}

/// The parties and text of an outgoing message, its addresses parsed.
pub struct Envelope {
    pub from: ParsedMailbox,
    pub to: Vec<ParsedMailbox>,
    pub cc: Vec<ParsedMailbox>,
    pub bcc: Vec<ParsedMailbox>,
    pub subject: String,
    pub body: String,
}

/// What is wrong with sending `input` from `account`, checked in this order:
/// no recipient, then the first address that does not parse among the
/// sender, the recipients, the copies and the blind copies.
pub open spec fn outgoing_problem(account: Account, input: SendMessageInput) -> Option<Seq<char>> {
    if input.to@.len() == 0 {
        Some("at least one recipient is required"@)
    } else {
        match mailbox_problem(account.email@) {
            Some(p) => Some(p),
            None => match first_mailbox_problem(input.to@) {
                Some(p) => Some(p),
                None => match first_mailbox_problem(input.cc@) {
                    Some(p) => Some(p),
                    None => first_mailbox_problem(input.bcc@),
                },
            },
        }
    }
}

/// Checks a message that `account` sends and parses its addresses: the
/// sender is the account's email, and the recipients, copies and blind
/// copies are the input's addresses in order, each trimmed and parsed; the
/// subject is trimmed, the body is kept.
pub fn prepare_envelope(account: &Account, input: &SendMessageInput) -> (r: AppResult<Envelope>)
    ensures
        match outgoing_problem(*account, *input) {
            Some(msg) => r matches Err(e) && is_validation(e, msg),
            None => r matches Ok(env) && env.subject@ == trim_seq(input.subject@) && env.body == input.body
                && env.from@ == mailbox_value(account.email@)
                && mailbox_views(env.to@) == mailbox_values(input.to@)
                && mailbox_views(env.cc@) == mailbox_values(input.cc@)
                && mailbox_views(env.bcc@) == mailbox_values(input.bcc@),
        },
{
    if input.to.len() == 0 {
        return Err(crate::error::validation("at least one recipient is required"));
    }
    let from = parse_mailbox(account.email.as_str())?;
    let to = parse_mailboxes(&input.to)?;
    let cc = parse_mailboxes(&input.cc)?;
    let bcc = parse_mailboxes(&input.bcc)?;
    Ok(Envelope { from, to, cc, bcc, subject: trim(input.subject.as_str()), body: input.body.clone() })
}

/// Whether `path` is a bare file name: not empty, not `.` or `..`, and
/// without `/`, `\\` or `:`, which some platform reads as a separator or a
/// drive prefix.
pub open spec fn bare_file_name(path: Seq<char>) -> bool {
    &&& path.len() > 0
    &&& path != "."@
    &&& path != ".."@
    &&& !path.contains('/')
    &&& !path.contains('\\')
    &&& !path.contains(':')
}

/// Whether `n` can be the last component of `path` on any platform: a
/// stretch of `path` that is not empty, not `.` or `..`, and holds no `/`.
pub open spec fn path_component(path: Seq<char>, n: Seq<char>) -> bool {
    &&& n.len() > 0
    &&& n != "."@
    &&& n != ".."@
    &&& !n.contains('/')
    &&& exists|i: int| 0 <= i <= path.len() - n.len() && #[trigger] path.subrange(i, i + n.len()) == n
}

/// `std::path::Path::file_name` of `path`, as text. Which characters
/// separate components depends on the platform (`\\` too on Windows), so
/// only what holds on every platform is stated: a name found is one
/// `path_component` of the path, a bare file name is its own name, and the
/// empty path, `.` and `..` have none.
#[verifier::external_body]
fn file_name_of(path: &str) -> (r: Option<String>)
    ensures
        r matches Some(n) ==> path_component(path@, n@),
        bare_file_name(path@) ==> opt_str_view(r) == Some(path@),
        (path@.len() == 0 || path@ == "."@ || path@ == ".."@) ==> r is None,
{
    std::path::Path::new(path).file_name().and_then(|name| name.to_str()).map(|name| name.to_owned())
}

/// The name under which the file at `path` is attached: its file name, or
/// `attachment` when the path has none.
pub fn attachment_name(path: &str) -> (r: String)
    ensures
        r@ == "attachment"@ || path_component(path@, r@),
        bare_file_name(path@) ==> r@ == path@,
        (path@.len() == 0 || path@ == "."@ || path@ == ".."@) ==> r@ == "attachment"@,
{
    match file_name_of(path) {
        Some(n) => n,
        None => "attachment".to_owned(),
    }
}

/// A file attached to an outgoing message: its name and its bytes.
pub struct OutgoingAttachment {
    pub filename: String,
    pub bytes: Vec<u8>,
}

/// The content type under which files are attached.
pub open spec fn attachment_content_type() -> Seq<char> {
    "application/octet-stream"@
}

/// A file of an outgoing message after its text: its name, its content type
/// as text, and its bytes.
pub struct OutgoingPart {
    pub filename: String,
    pub content_type: String,
    pub bytes: Vec<u8>,
}

/// A message ready to be handed to `lettre`: the sender, the subject, the
/// recipients, copies and blind copies in order, the text, and the attached
/// files in order.
pub struct OutgoingMessage {
    from: ParsedMailbox,
    to: Vec<ParsedMailbox>,
    cc: Vec<ParsedMailbox>,
    bcc: Vec<ParsedMailbox>,
    subject: String,
    text: String,
    parts: Vec<OutgoingPart>,
}

/// The content of an `OutgoingMessage`; each part is its file name, its
/// content type and its bytes.
pub struct OutgoingView {
    pub from: (Option<Seq<char>>, Seq<char>),
    pub to: Seq<(Option<Seq<char>>, Seq<char>)>,
    pub cc: Seq<(Option<Seq<char>>, Seq<char>)>,
    pub bcc: Seq<(Option<Seq<char>>, Seq<char>)>,
    pub subject: Seq<char>,
    pub text: Seq<char>,
    pub parts: Seq<(Seq<char>, Seq<char>, Seq<u8>)>,
}

/// The view of each part in `v`.
pub open spec fn part_specs(v: Seq<OutgoingPart>) -> Seq<(Seq<char>, Seq<char>, Seq<u8>)> {
    v.map_values(|p: OutgoingPart| (p.filename@, p.content_type@, p.bytes@))
}

impl View for OutgoingMessage {
    type V = OutgoingView;

    closed spec fn view(&self) -> OutgoingView {
        OutgoingView {
            from: self.from@,
            to: mailbox_views(self.to@),
            cc: mailbox_views(self.cc@),
            bcc: mailbox_views(self.bcc@),
            subject: self.subject@,
            text: self.text@,
            parts: part_specs(self.parts@),
        }
    }
}

/// The message that sends `env` with `attachments`: the envelope's parties,
/// subject and text, then each file under its name as
/// `application/octet-stream`, in order.
pub open spec fn outgoing_of(env: Envelope, attachments: Seq<OutgoingAttachment>) -> OutgoingView {
    OutgoingView {
        from: env.from@,
        to: mailbox_views(env.to@),
        cc: mailbox_views(env.cc@),
        bcc: mailbox_views(env.bcc@),
        subject: env.subject@,
        text: env.body@,
        parts: attachments.map_values(|a: OutgoingAttachment| (a.filename@, attachment_content_type(), a.bytes@)),
    }
}

/// The message that sends `env` with `attachments`; see `outgoing_of`.
pub fn outgoing_message(env: Envelope, attachments: Vec<OutgoingAttachment>) -> (m: OutgoingMessage)
    ensures
        m@ == outgoing_of(env, attachments@),
{
    let ghost want = attachments@.map_values(
        |a: OutgoingAttachment| (a.filename@, attachment_content_type(), a.bytes@),
    );
    let mut parts: Vec<OutgoingPart> = Vec::new();
    let mut i: usize = 0;
    while i < attachments.len()
        invariant
            i <= attachments@.len(),
            want == attachments@.map_values(
                |a: OutgoingAttachment| (a.filename@, attachment_content_type(), a.bytes@),
            ),
            part_specs(parts@) == want.take(i as int),
        decreases attachments.len() - i,
    {
        let a = &attachments[i];
        let part = OutgoingPart {
            filename: a.filename.clone(),
            content_type: "application/octet-stream".to_owned(),
            bytes: a.bytes.clone(),
        };
        let ghost before = part_specs(parts@);
        parts.push(part);
        assert(part_specs(parts@) =~= before.push((a.filename@, attachment_content_type(), a.bytes@)));
        assert(want.take(i + 1) =~= want.take(i as int).push(want[i as int]));
        i = i + 1;
    }
    assert(want.take(attachments@.len() as int) =~= want);
    let Envelope { from, to, cc, bcc, subject, body } = env;
    OutgoingMessage { from, to, cc, bcc, subject, text: body, parts }
}

/// A `lettre` message together with the content it was built from.
pub struct BuiltMessage(lettre::Message, Ghost<OutgoingView>);

impl View for BuiltMessage {
    type V = OutgoingView;

    closed spec fn view(&self) -> OutgoingView {
        self.1@
    }
}

impl BuiltMessage {
    /// The `lettre` message, to be handed to a transport.
    pub fn into_message(self) -> lettre::Message {
        self.0
    }
}

/// Builds the `lettre` message of `m`: `Message::builder()` with `from`,
/// `subject`, then `to`, `cc` and `bcc` for each address in order, and
/// `multipart` of `MultiPart::mixed()` holding `SinglePart::plain` of the
/// text and, for each file in order, `Attachment::new(name).body(bytes,
/// ContentType::parse(type))`; the result carries `m`'s content as what it
/// was built from. `lettre` builds it whenever there is at least one
/// recipient, copy or blind copy (`Envelope::try_from` refuses only an
/// empty list of them, and a single `From` mailbox needs no `Sender`) and
/// every content type parses, as `application/octet-stream` does.
#[verifier::external_body]
fn build_message(m: OutgoingMessage) -> (r: Result<BuiltMessage, String>)
    ensures
        m@.to.len() + m@.cc.len() + m@.bcc.len() > 0 && (forall|i: int| 0 <= i < m@.parts.len()
            ==> (#[trigger] m@.parts[i]).1 == attachment_content_type()) ==> r is Ok,
        r matches Ok(b) ==> b@ == m@,
{
    let content = Ghost(m@);
    let mut b = Message::builder().from(m.from.mailbox).subject(m.subject);
    for x in m.to { b = b.to(x.mailbox) }
    for x in m.cc { b = b.cc(x.mailbox) }
    for x in m.bcc { b = b.bcc(x.mailbox) }
    let mut body = MultiPart::mixed().singlepart(SinglePart::plain(m.text));
    for p in m.parts {
        let ct = ContentType::parse(&p.content_type).map_err(|e| e.to_string())?;
        body = body.singlepart(Attachment::new(p.filename).body(p.bytes, ct))
    }
    Ok(BuiltMessage(b.multipart(body).map_err(|e| e.to_string())?, content))
}

/// The `lettre` message of `m` (see `build_message`), carrying `m`'s
/// content as what it was built from; it is built whenever `m` has at least
/// one recipient, copy or blind copy and its files are attached as
/// `application/octet-stream`, as `outgoing_message` attaches them. A
/// refusal by `lettre` is a mail error.
pub fn compose_message(m: OutgoingMessage) -> (r: AppResult<BuiltMessage>)
    ensures
        m@.to.len() + m@.cc.len() + m@.bcc.len() > 0 && (forall|i: int| 0 <= i < m@.parts.len()
            ==> (#[trigger] m@.parts[i]).1 == attachment_content_type()) ==> r is Ok,
        r matches Ok(b) ==> b@ == m@,
        r matches Err(e) ==> e is Mail,
{
    match build_message(m) {
        Ok(message) => Ok(message),
        Err(e) => Err(AppError::Mail(e)),
    }
}

} // verus!

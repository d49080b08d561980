//! Reading mail: turning raw RFC 5322 messages into headers and bodies,
//! formatting addresses, naming folders, and the rules for connecting to
//! mail servers. The network itself is reached elsewhere.
use vstd::prelude::*;

use crate::error::{AppError, AppResult, is_validation, validation};
use mail_parser::{MimeHeaders, PartType};

use crate::models::{
    Account, AttachmentMeta, BodyView, ConnectionReport, Folder, HeaderView, MessageBody,
    MessageHeader, SocketSecurity, Timestamp, opt_str_view,
};
use crate::seqs::{sort_by, sorted_by};
use crate::store::{header_views, newer_first};
use crate::text::{
    after_last, after_last_seq, ascii_lower, ascii_lower_eq, decimal, decimal_seq, join_seq,
};

verus! {

// ---------------------------------------------------------------------------
// Addresses

/// One address of an address header: a display name, an address, or both.
#[derive(Debug)]
pub struct MailAddr {
    pub name: Option<String>,
    pub address: Option<String>,
}

/// The content of one address: its display name and its address.
pub type AddrView = (Option<Seq<char>>, Option<Seq<char>>);

impl View for MailAddr {
    type V = AddrView;

    open spec fn view(&self) -> AddrView {
        (opt_str_view(self.name), opt_str_view(self.address))
    }
}

/// An address header: a plain list of addresses, or a list of groups, each
/// holding addresses.
#[derive(Debug)]
pub enum AddressList {
    List(Vec<MailAddr>),
    Group(Vec<Vec<MailAddr>>),
}

/// The content of an address header.
pub enum AddressListView {
    List(Seq<AddrView>),
    Group(Seq<Seq<AddrView>>),
}

/// The views of the addresses in `v`.
pub open spec fn addr_views(v: Seq<MailAddr>) -> Seq<AddrView> {
    v.map_values(|a: MailAddr| a@)
}

impl View for AddressList {
    type V = AddressListView;

    open spec fn view(&self) -> AddressListView {
        match self {
            AddressList::List(v) => AddressListView::List(addr_views(v@)),
            AddressList::Group(g) => AddressListView::Group(g@.map_values(|v: Vec<MailAddr>| addr_views(v@))),
        }
    }
}

/// How one address is shown: `name <address>`, or whichever of the two it has.
pub open spec fn addr_text(a: AddrView) -> Seq<char> {
    match a {
        (Some(n), Some(x)) => n + " <"@ + x + ">"@,
        (None, Some(x)) => x,
        (Some(n), None) => n,
        (None, None) => Seq::empty(),
    }
}

/// The groups of `g` one after another.
pub open spec fn flatten_groups(g: Seq<Seq<AddrView>>) -> Seq<AddrView>
    decreases g.len(),
{
    if g.len() == 0 {
        Seq::empty()
    } else {
        flatten_groups(g.drop_last()) + g.last()
    }
}

/// How an address header is shown: every address, groups flattened, joined
/// with `", "`.
pub open spec fn address_text(l: AddressListView) -> Seq<char> {
    match l {
        AddressListView::List(xs) => join_seq(xs.map_values(|a: AddrView| addr_text(a)), ", "@),
        AddressListView::Group(gs) => join_seq(flatten_groups(gs).map_values(|a: AddrView| addr_text(a)), ", "@),
    }
}

/// How one address is shown.
pub fn format_addr(addr: &MailAddr) -> (r: String)
    ensures
        r@ == addr_text(addr@),
{
    match (&addr.name, &addr.address) {
        (Some(name), Some(address)) => name.clone().concat(" <").concat(address.as_str()).concat(">"),
        (None, Some(address)) => address.clone(),
        (Some(name), None) => name.clone(),
        (None, None) => String::new(),
    }
}

fn join_addresses(addrs: &Vec<MailAddr>) -> (r: String)
    ensures
        r@ == join_seq(addr_views(addrs@).map_values(|a: AddrView| addr_text(a)), ", "@),
{
    let ghost texts = addr_views(addrs@).map_values(|a: AddrView| addr_text(a));
    let mut out = String::new();
    let mut i: usize = 0;
    while i < addrs.len()
        invariant
            texts == addr_views(addrs@).map_values(|a: AddrView| addr_text(a)),
            i <= addrs@.len(),
            out@ == join_seq(texts.take(i as int), ", "@),
        decreases addrs.len() - i,
    {
        let t = format_addr(&addrs[i]);
        assert(texts[i as int] == t@);
        assert(texts.take(i + 1).drop_last() =~= texts.take(i as int));
        if i == 0 {
            out = t;
            assert(out@ == join_seq(texts.take(1), ", "@));
        } else {
            out = out.concat(", ").concat(t.as_str());
        }
        i = i + 1;
    }
    assert(texts.take(addrs@.len() as int) =~= texts);
    out
}

/// How an address header is shown: every address, groups flattened, joined
/// with `", "`.
pub fn format_addresses(addresses: &AddressList) -> (r: String)
    ensures
        r@ == address_text(addresses@),
{
    match addresses {
        AddressList::List(list) => join_addresses(list),
        AddressList::Group(groups) => {
            let ghost gv = groups@.map_values(|v: Vec<MailAddr>| addr_views(v@));
            let mut all: Vec<MailAddr> = Vec::new();
            let mut g: usize = 0;
            while g < groups.len()
                invariant
                    gv == groups@.map_values(|v: Vec<MailAddr>| addr_views(v@)),
                    g <= groups@.len(),
                    addr_views(all@) == flatten_groups(gv.take(g as int)),
                decreases groups.len() - g,
            {
                let group = &groups[g];
                let ghost start = addr_views(all@);
                let mut k: usize = 0;
                while k < group.len()
                    invariant
                        k <= group@.len(),
                        addr_views(all@) == start + addr_views(group@).take(k as int),
                    decreases group.len() - k,
                {
                    let a = MailAddr { name: group[k].name.clone(), address: group[k].address.clone() };
                    let ghost before = addr_views(all@);
                    all.push(a);
                    assert(addr_views(all@) =~= before.push(group@[k as int]@));
                    assert(addr_views(group@).take(k + 1) =~= addr_views(group@).take(k as int).push(group@[k as int]@));
                    k = k + 1;
                }
                assert(addr_views(group@).take(group@.len() as int) =~= addr_views(group@));
                assert(gv.take(g + 1).drop_last() =~= gv.take(g as int));
                assert(gv.take(g + 1).last() == addr_views(group@));
                g = g + 1;
            }
            assert(gv.take(groups@.len() as int) =~= gv);
            join_addresses(&all)
        },
    }
}

// ---------------------------------------------------------------------------
// The mail parser

#[verifier::external_type_specification]
#[verifier::external_body]
pub struct ExMailMessage<'x>(mail_parser::Message<'x>);

/// Whether `mail_parser` finds a message in `raw` (it needs at least one
/// header).
pub uninterp spec fn mail_parses(raw: Seq<u8>) -> bool;

/// The decoded `Subject` header of the message in `raw`.
pub uninterp spec fn mail_subject(raw: Seq<u8>) -> Option<Seq<char>>;

/// The `Message-ID` header of the message in `raw`.
pub uninterp spec fn mail_message_id(raw: Seq<u8>) -> Option<Seq<char>>;

/// The `From` header of the message in `raw`.
pub uninterp spec fn mail_from(raw: Seq<u8>) -> Option<AddressListView>;

/// The `To` header of the message in `raw`.
pub uninterp spec fn mail_to(raw: Seq<u8>) -> Option<AddressListView>;

/// The `Cc` header of the message in `raw`.
pub uninterp spec fn mail_cc(raw: Seq<u8>) -> Option<AddressListView>;

/// The `Date` header of the message in `raw`, in seconds since the epoch.
pub uninterp spec fn mail_date(raw: Seq<u8>) -> Option<i64>;

/// The first plain-text body of the message in `raw`.
pub uninterp spec fn mail_text_body(raw: Seq<u8>) -> Option<Seq<char>>;

/// The first HTML body of the message in `raw`.
pub uninterp spec fn mail_html_body(raw: Seq<u8>) -> Option<Seq<char>>;

/// How many attachments the message in `raw` has.
pub uninterp spec fn mail_attachment_count(raw: Seq<u8>) -> nat;

/// The attachment at position `i` of the message in `raw`.
pub uninterp spec fn mail_attachment(raw: Seq<u8>, i: nat) -> Option<PartView>;

/// A message that `mail_parser` parsed, together with the bytes it came from.
pub struct ParsedMail<'a> {
    raw: &'a [u8],
    message: mail_parser::Message<'a>,
}

impl<'a> View for ParsedMail<'a> {
    type V = Seq<u8>;

    closed spec fn view(&self) -> Seq<u8> {
        self.raw@
    }
}

/// What a body part holds.
#[derive(Clone, Copy, Debug, PartialEq, Eq, Structural)]
pub enum PartKind {
    Text,
    Html,
    Binary,
    InlineBinary,
    Message,
    Multipart,
}

/// What the client learns of an attachment: its file name, what it holds,
/// and its size in bytes.
#[derive(Debug)]
pub struct PartInfo {
    pub name: Option<String>,
    pub kind: PartKind,
    pub size: usize,
}

/// The content of a `PartInfo`.
pub type PartView = (Option<Seq<char>>, PartKind, nat);

impl View for PartInfo {
    type V = PartView;

    open spec fn view(&self) -> PartView {
        (opt_str_view(self.name), self.kind, self.size as nat)
    }
}

/// The view of an optional part.
pub open spec fn opt_part_view(p: Option<PartInfo>) -> Option<PartView> {
    match p {
        Some(x) => Some(x@),
        None => None,
    }
}

/// The view of an optional address header.
pub open spec fn opt_address_view(a: Option<AddressList>) -> Option<AddressListView> {
    match a {
        Some(x) => Some(x@),
        None => None,
    }
}

/// Parses `raw` with `mail_parser::MessageParser::default().parse`. The
/// result is named: it is `Some` exactly when `mail_parses(raw)`, and then
/// remembers `raw`.
#[verifier::external_body]
fn parse_mail<'a>(raw: &'a [u8]) -> (r: Option<ParsedMail<'a>>)
    ensures
        r is Some <==> mail_parses(raw@),
        r matches Some(m) ==> m@ == raw@,
{
    match mail_parser::MessageParser::default().parse(raw) {
        Some(message) => Some(ParsedMail { raw, message }),
        None => None,
    }
}

/// The subject, by `mail_parser::Message::subject`.
#[verifier::external_body]
fn subject_of(m: &ParsedMail) -> (r: Option<String>)
    ensures
        opt_str_view(r) == mail_subject(m@),
{
    m.message.subject().map(|s| s.to_string())
}

/// The message id, by `mail_parser::Message::message_id`.
#[verifier::external_body]
fn message_id_of(m: &ParsedMail) -> (r: Option<String>)
    ensures
        opt_str_view(r) == mail_message_id(m@),
{
    m.message.message_id().map(|s| s.to_string())
}

/// The `From` header, by `mail_parser::Message::from`, each address taken
/// as its `name` and `address` fields.
#[verifier::external_body]
fn from_of(m: &ParsedMail) -> (r: Option<AddressList>)
    ensures
        opt_address_view(r) == mail_from(m@),
{
    let c = |a: &mail_parser::Addr| MailAddr {
        name: a.name.as_ref().map(|n| n.to_string()),
        address: a.address.as_ref().map(|x| x.to_string()),
    };
    match m.message.from() {
        Some(mail_parser::Address::List(l)) => Some(AddressList::List(l.iter().map(c).collect())),
        Some(mail_parser::Address::Group(g)) => Some(
            AddressList::Group(g.iter().map(|x| x.addresses.iter().map(c).collect()).collect()),
        ),
        None => None,
    }
}

/// The `To` header, by `mail_parser::Message::to`, each address taken
/// as its `name` and `address` fields.
#[verifier::external_body]
fn to_of(m: &ParsedMail) -> (r: Option<AddressList>)
    ensures
        opt_address_view(r) == mail_to(m@),
{
    let c = |a: &mail_parser::Addr| MailAddr {
        name: a.name.as_ref().map(|n| n.to_string()),
        address: a.address.as_ref().map(|x| x.to_string()),
    };
    match m.message.to() {
        Some(mail_parser::Address::List(l)) => Some(AddressList::List(l.iter().map(c).collect())),
        Some(mail_parser::Address::Group(g)) => Some(
            AddressList::Group(g.iter().map(|x| x.addresses.iter().map(c).collect()).collect()),
        ),
        None => None,
    }
}

/// The `Cc` header, by `mail_parser::Message::cc`, each address taken
/// as its `name` and `address` fields.
#[verifier::external_body]
fn cc_of(m: &ParsedMail) -> (r: Option<AddressList>)
    ensures
        opt_address_view(r) == mail_cc(m@),
{
    let c = |a: &mail_parser::Addr| MailAddr {
        name: a.name.as_ref().map(|n| n.to_string()),
        address: a.address.as_ref().map(|x| x.to_string()),
    };
    match m.message.cc() {
        Some(mail_parser::Address::List(l)) => Some(AddressList::List(l.iter().map(c).collect())),
        Some(mail_parser::Address::Group(g)) => Some(
            AddressList::Group(g.iter().map(|x| x.addresses.iter().map(c).collect()).collect()),
        ),
        None => None,
    }
}

/// The date, by `mail_parser::Message::date` and `DateTime::to_timestamp`.
#[verifier::external_body]
fn date_of(m: &ParsedMail) -> (r: Option<i64>)
    ensures
        r == mail_date(m@),
{
    m.message.date().map(|d| d.to_timestamp())
}

/// The first plain-text body, by `mail_parser::Message::body_text(0)`.
#[verifier::external_body]
fn text_body_of(m: &ParsedMail) -> (r: Option<String>)
    ensures
        opt_str_view(r) == mail_text_body(m@),
{
    m.message.body_text(0).map(|b| b.to_string())
}

/// The first HTML body, by `mail_parser::Message::body_html(0)`.
#[verifier::external_body]
fn html_body_of(m: &ParsedMail) -> (r: Option<String>)
    ensures
        opt_str_view(r) == mail_html_body(m@),
{
    m.message.body_html(0).map(|b| b.to_string())
}

/// The number of attachments, by `mail_parser::Message::attachment_count`.
#[verifier::external_body]
fn attachment_count_of(m: &ParsedMail) -> (r: usize)
    ensures
        r == mail_attachment_count(m@),
{
    m.message.attachment_count()
}

/// The attachment at position `i`, by `mail_parser::Message::attachment`:
/// its file name (`MimeHeaders::attachment_name`), the kind of its body and
/// the length of its contents. There is none at or past the count, and a
/// length never exceeds `isize::MAX`, as for every Rust slice.
#[verifier::external_body]
fn attachment_at(m: &ParsedMail, i: usize) -> (r: Option<PartInfo>)
    ensures
        opt_part_view(r) == mail_attachment(m@, i as nat),
        i >= mail_attachment_count(m@) ==> r is None,
        r matches Some(p) ==> p.size <= isize::MAX,
{
    m.message.attachment(i).map(|p| PartInfo {
        name: p.attachment_name().map(|s| s.to_string()),
        kind: match &p.body {
            PartType::Text(_) => PartKind::Text,
            PartType::Html(_) => PartKind::Html,
            PartType::Binary(_) => PartKind::Binary,
            PartType::InlineBinary(_) => PartKind::InlineBinary,
            PartType::Message(_) => PartKind::Message,
            PartType::Multipart(_) => PartKind::Multipart,
        },
        size: p.contents().len(),
    })
}

// ---------------------------------------------------------------------------
// Time

/// Whether `chrono::DateTime<Utc>` can hold a time `secs` seconds after the
/// epoch.
pub uninterp spec fn chrono_represents(secs: i64) -> bool;

/// Checks `secs` with `chrono::DateTime::from_timestamp(secs, 0)` and reads
/// the seconds back with `DateTime::timestamp`, which chrono documents to
/// round-trip.
#[verifier::external_body]
fn utc_seconds(secs: i64) -> (r: Option<i64>)
    ensures
        r is Some <==> chrono_represents(secs),
        r matches Some(t) ==> t == secs,
{
    chrono::DateTime::from_timestamp(secs, 0).map(|d| d.timestamp())
}

/// The current time, by `chrono::Utc::now`; it depends on the clock, so
/// nothing is stated of it.
#[verifier::external_body]
fn current_time() -> Timestamp {
    let now = chrono::Utc::now();
    Timestamp { seconds: now.timestamp(), nanos: now.timestamp_subsec_nanos() }
}

// ---------------------------------------------------------------------------
// HTML

/// The entity that `c` is written as in HTML text, or `c` itself.
pub open spec fn html_entity(c: char) -> Seq<char> {
    if c == '&' {
        "&amp;"@
    } else if c == '<' {
        "&lt;"@
    } else if c == '>' {
        "&gt;"@
    } else if c == '"' {
        "&quot;"@
    } else if c == '\'' {
        "&#x27;"@
    } else if c == '/' {
        "&#x2F;"@
    } else {
        seq![c]
    }
}

/// `s` with `&`, `<`, `>`, `"`, `'` and `/` written as HTML entities.
pub open spec fn html_escaped(s: Seq<char>) -> Seq<char>
    decreases s.len(),
{
    if s.len() == 0 {
        Seq::empty()
    } else {
        html_escaped(s.drop_last()) + html_entity(s.last())
    }
}

/// `html` made safe to show as text, by `html_escape::encode_safe`, which
/// writes `&`, `<`, `>`, `"`, `'` and `/` as the entities of `html_entity`
/// and keeps every other character.
#[verifier::external_body]
pub fn sanitize_html(html: &str) -> (r: String)
    ensures
        r@ == html_escaped(html@),
{
    html_escape::encode_safe(html).to_string()
}

/// Escaped HTML holds none of the characters that `sanitize_html` escapes,
/// but for the `&` that starts each entity.
pub proof fn lemma_html_escaped_is_inert(s: Seq<char>)
    ensures
        forall|i: int| 0 <= i < html_escaped(s).len() ==> {
            let c = #[trigger] html_escaped(s)[i];
            c != '<' && c != '>' && c != '"' && c != '\'' && c != '/'
        },
    decreases s.len(),
{
    reveal_strlit("&amp;");
    reveal_strlit("&lt;");
    reveal_strlit("&gt;");
    reveal_strlit("&quot;");
    reveal_strlit("&#x27;");
    reveal_strlit("&#x2F;");
    if s.len() > 0 {
        lemma_html_escaped_is_inert(s.drop_last());
        let a = html_escaped(s.drop_last());
        let e = html_entity(s.last());
        assert forall|i: int| 0 <= i < html_escaped(s).len() implies {
            let c = #[trigger] html_escaped(s)[i];
            c != '<' && c != '>' && c != '"' && c != '\'' && c != '/'
        } by {
            if i >= a.len() {
                assert(html_escaped(s)[i] == e[i - a.len()]);
            } else {
                assert(html_escaped(s)[i] == a[i]);
            }
        }
    }
}

// ---------------------------------------------------------------------------
// Headers

/// What a header is built from: the parsed header fields.
#[derive(Debug)]
pub struct HeaderParts {
    pub subject: Option<String>,
    pub from: Option<AddressList>,
    pub to: Option<AddressList>,
    pub cc: Option<AddressList>,
    pub message_id: Option<String>,
    pub date: Option<i64>,
}

/// The content of a `HeaderParts`.
pub struct HeaderPartsView {
    pub subject: Option<Seq<char>>,
    pub from: Option<AddressListView>,
    pub to: Option<AddressListView>,
    pub cc: Option<AddressListView>,
    pub message_id: Option<Seq<char>>,
    pub date: Option<i64>,
}

impl View for HeaderParts {
    type V = HeaderPartsView;

    open spec fn view(&self) -> HeaderPartsView {
        HeaderPartsView {
            subject: opt_str_view(self.subject),
            from: opt_address_view(self.from),
            to: opt_address_view(self.to),
            cc: opt_address_view(self.cc),
            message_id: opt_str_view(self.message_id),
            date: self.date,
        }
    }
}

/// The header fields that the parser finds in `raw`: nothing when it finds no
/// message, and a date only when chrono can hold it.
pub open spec fn mail_header_parts(raw: Seq<u8>) -> HeaderPartsView {
    if mail_parses(raw) {
        HeaderPartsView {
            subject: mail_subject(raw),
            from: mail_from(raw),
            to: mail_to(raw),
            cc: mail_cc(raw),
            message_id: mail_message_id(raw),
            date: match mail_date(raw) {
                Some(s) => if chrono_represents(s) {
                    Some(s)
                } else {
                    None
                },
                None => None,
            },
        }
    } else {
        HeaderPartsView { subject: None, from: None, to: None, cc: None, message_id: None, date: None }
    }
}

/// `h` is the header of message `uid` in `folder_path` of `account`, with
/// `flags`, built from `parts`: a missing subject reads `(No subject)`,
/// missing senders and recipients read empty, and a missing date leaves the
/// time open.
pub open spec fn header_built(
    h: HeaderView,
    account: Account,
    folder_path: Seq<char>,
    uid: i64,
    flags: Seq<String>,
    parts: HeaderPartsView,
) -> bool {
    &&& h.account_id == account.id
    &&& h.account_email == account.email
    &&& h.account_display_name == account.display_name
    &&& h.folder_path@ == folder_path
    &&& h.uid == uid
    &&& opt_str_view(h.message_id) == parts.message_id
    &&& h.subject@ == match parts.subject {
        Some(s) => s,
        None => "(No subject)"@,
    }
    &&& h.from@ == match parts.from {
        Some(a) => address_text(a),
        None => Seq::empty(),
    }
    &&& h.to@ == match parts.to {
        Some(a) => address_text(a),
        None => Seq::empty(),
    }
    &&& opt_str_view(h.cc) == match parts.cc {
        Some(a) => Some(address_text(a)),
        None => None,
    }
    &&& parts.date matches Some(s) ==> h.date == (Timestamp { seconds: s, nanos: 0 })
    &&& h.flags == flags
    &&& !h.has_attachments
    &&& h.snippet is None
}

/// Builds the header of message `uid` in `folder_path` of `account` from its
/// parsed fields; without a date it takes the time `now`.
pub fn header_from_parts(
    account: &Account,
    folder_path: &str,
    uid: i64,
    flags: &Vec<String>,
    parts: &HeaderParts,
    now: Timestamp,
) -> (h: MessageHeader)
    ensures
        header_built(h@, *account, folder_path@, uid, flags@, parts@),
        parts.date is None ==> h.date == now,
{
    let subject = match &parts.subject {
        Some(s) => s.clone(),
        None => "(No subject)".to_owned(),
    };
    let from = match &parts.from {
        Some(a) => format_addresses(a),
        None => String::new(),
    };
    let to = match &parts.to {
        Some(a) => format_addresses(a),
        None => String::new(),
    };
    let cc = match &parts.cc {
        Some(a) => Some(format_addresses(a)),
        None => None,
    };
    let date = match parts.date {
        Some(s) => Timestamp { seconds: s, nanos: 0 },
        None => now,
    };
    MessageHeader {
        account_id: account.id.clone(),
        account_email: account.email.clone(),
        account_display_name: account.display_name.clone(),
        folder_path: folder_path.to_owned(),
        uid,
        message_id: parts.message_id.clone(),
        subject,
        from,
        to,
        cc,
        date,
        flags: crate::models::clone_strings(flags),
        has_attachments: false,
        snippet: None,
    }
}

/// The header fields of the message in `raw`, by the parser.
fn header_parts_of(raw: &[u8]) -> (r: HeaderParts)
    ensures
        r@ == mail_header_parts(raw@),
{
    match parse_mail(raw) {
        Some(m) => {
            let date = match date_of(&m) {
                Some(s) => utc_seconds(s),
                None => None,
            };
            HeaderParts {
                subject: subject_of(&m),
                from: from_of(&m),
                to: to_of(&m),
                cc: cc_of(&m),
                message_id: message_id_of(&m),
                date,
            }
        },
        None => HeaderParts { subject: None, from: None, to: None, cc: None, message_id: None, date: None },
    }
}

/// The header of message `uid` in `folder_path` of `account`, with `flags`,
/// read from its raw headers; a message without a usable date is dated now.
pub fn parse_header(account: &Account, folder_path: &str, uid: i64, flags: &Vec<String>, raw: &[u8]) -> (h: MessageHeader)
    ensures
        header_built(h@, *account, folder_path@, uid, flags@, mail_header_parts(raw@)),
{
    let parts = header_parts_of(raw);
    let date = match parts.date {
        Some(seconds) => Timestamp { seconds, nanos: 0 },
        None => current_time(),
    };
    header_from_parts(account, folder_path, uid, flags, &parts, date)
}

// ---------------------------------------------------------------------------
// Bodies

/// The MIME type recorded for an attachment of kind `k`.
pub open spec fn part_mime(k: PartKind) -> Seq<char> {
    match k {
        PartKind::Binary => "application/octet-stream"@,
        PartKind::Text => "text/plain"@,
        PartKind::Html => "text/html"@,
        _ => "application/octet-stream"@,
    }
}

/// `a` describes the attachment at position `index` (counting from 0) of
/// message `uid` in `folder_path` of account `account_id`: its file name, or
/// `attachment-<n>` without one, and part id `<n>`, where n = index + 1.
pub open spec fn attachment_built(a: AttachmentMeta, account_id: String, folder_path: Seq<char>, uid: i64, index: nat, p: PartView) -> bool {
    &&& a.account_id == account_id
    &&& a.folder_path@ == folder_path
    &&& a.uid == uid
    &&& a.filename@ == match p.0 {
        Some(n) => n,
        None => "attachment-"@ + decimal_seq(index + 1),
    }
    &&& a.mime_type@ == part_mime(p.1)
    &&& a.size == Some(p.2 as i64)
    &&& a.part_id@ == decimal_seq(index + 1)
}

/// An attachment whose body the parser reads as plain text is recorded as
/// `text/plain`, one it reads as HTML as `text/html`, and any other as
/// `application/octet-stream`.
pub proof fn lemma_attachment_mime_type(a: AttachmentMeta, account_id: String, folder_path: Seq<char>, uid: i64, index: nat, p: PartView)
    requires
        attachment_built(a, account_id, folder_path, uid, index, p),
    ensures
        p.1 == PartKind::Text ==> a.mime_type@ == "text/plain"@,
        p.1 == PartKind::Html ==> a.mime_type@ == "text/html"@,
        p.1 != PartKind::Text && p.1 != PartKind::Html ==> a.mime_type@ == "application/octet-stream"@,
{
}

/// `b` is the body of message `uid` in `folder_path` of `account` built from
/// the text body `text`, the HTML body `html` (escaped), the attachments
/// `parts` and the time `fetched_at`.
pub open spec fn body_built(
    b: BodyView,
    account: Account,
    folder_path: Seq<char>,
    uid: i64,
    text: Option<Seq<char>>,
    html: Option<Seq<char>>,
    parts: Seq<PartView>,
) -> bool {
    &&& b.account_id == account.id
    &&& b.folder_path@ == folder_path
    &&& b.uid == uid
    &&& opt_str_view(b.text_body) == text
    &&& opt_str_view(b.sanitized_html_body) == match html {
        Some(h) => Some(html_escaped(h)),
        None => None,
    }
    &&& b.attachments.len() == parts.len()
    &&& forall|i: int| 0 <= i < parts.len() ==> attachment_built(#[trigger] b.attachments[i], account.id, folder_path, uid, i as nat, parts[i])
}

/// The view of each part in `v`.
pub open spec fn part_views(v: Seq<PartInfo>) -> Seq<PartView> {
    v.map_values(|p: PartInfo| p@)
}

fn mime_type_of(kind: PartKind) -> (r: &'static str)
    ensures
        r@ == part_mime(kind),
        kind == PartKind::Text ==> r@ == "text/plain"@,
        kind == PartKind::Html ==> r@ == "text/html"@,
        kind != PartKind::Text && kind != PartKind::Html ==> r@ == "application/octet-stream"@,
{
    match kind {
        PartKind::Binary => "application/octet-stream",
        PartKind::Text => "text/plain",
        PartKind::Html => "text/html",
        _ => "application/octet-stream",
    }
}

/// Builds the body of message `uid` in `folder_path` of `account` from its
/// text body, its HTML body (escaped), its attachments and the time it was
/// fetched.
pub fn body_from_parts(
    account: &Account,
    folder_path: &str,
    uid: i64,
    text: Option<String>,
    html: Option<String>,
    parts: &Vec<PartInfo>,
    fetched_at: Timestamp,
) -> (b: MessageBody)
    requires
        forall|i: int| 0 <= i < parts@.len() ==> (#[trigger] parts@[i]).size <= isize::MAX,
    ensures
        body_built(b@, *account, folder_path@, uid, opt_str_view(text), opt_str_view(html), part_views(parts@)),
        b.fetched_at == fetched_at,
{
    let mut attachments: Vec<AttachmentMeta> = Vec::new();
    let mut i: usize = 0;
    while i < parts.len()
        invariant
            i <= parts@.len(),
            forall|k: int| 0 <= k < parts@.len() ==> (#[trigger] parts@[k]).size <= isize::MAX,
            attachments@.len() == i,
            forall|k: int| 0 <= k < i ==> attachment_built(#[trigger] attachments@[k], account.id, folder_path@, uid, k as nat, parts@[k]@),
        decreases parts.len() - i,
    {
        let p = &parts[i];
        let n = decimal(i + 1);
        let filename = match &p.name {
            Some(name) => name.clone(),
            None => "attachment-".to_owned().concat(n.as_str()),
        };
        let meta = AttachmentMeta {
            account_id: account.id.clone(),
            folder_path: folder_path.to_owned(),
            uid,
            filename,
            mime_type: mime_type_of(p.kind).to_owned(),
            size: Some(p.size as i64),
            part_id: n,
        };
        attachments.push(meta);
        i = i + 1;
    }
    let sanitized_html_body = match &html {
        Some(h) => Some(sanitize_html(h.as_str())),
        None => None,
    };
    let b = MessageBody {
        account_id: account.id.clone(),
        folder_path: folder_path.to_owned(),
        uid,
        text_body: text,
        sanitized_html_body,
        fetched_at,
        attachments,
    };
    assert forall|k: int| 0 <= k < parts@.len() implies attachment_built(#[trigger] b@.attachments[k], account.id, folder_path@, uid, k as nat, part_views(parts@)[k]) by {
        assert(part_views(parts@)[k] == parts@[k]@);
    }
    b
}

/// A body as `parse_body` builds it, once saved for an existing account, is
/// read back from the cache with its attachments in file-name order.
pub proof fn lemma_parsed_body_reads_back(
    v: crate::store::StoreView,
    b: BodyView,
    account: Account,
    folder_path: Seq<char>,
    uid: i64,
    text: Option<Seq<char>>,
    html: Option<Seq<char>>,
    parts: Seq<PartView>,
)
    requires
        body_built(b, account, folder_path, uid, text, html, parts),
        crate::store::has_account(v.accounts, account.id@),
    ensures
        ({
            let cleared = v.attachments.filter(|x: AttachmentMeta| !crate::store::attachment_of(b.account_id@, b.folder_path@, b.uid)(x));
            let saved = crate::store::save_attachments(v.accounts, cleared, b.attachments);
            let after = crate::store::StoreView {
                bodies: crate::seqs::upsert(v.bodies, crate::store::body_row(b), crate::store::body_has_key(b.account_id@, b.folder_path@, b.uid)),
                attachments: saved.0,
                ..v
            };
            &&& saved.1
            &&& crate::store::cached_body_of(after, account.id@, folder_path, uid) == Some(BodyView {
                attachments: sort_by(b.attachments, crate::store::attachment_before()),
                ..b
            })
        }),
{
    assert forall|i: int, j: int| 0 <= i < b.attachments.len() && 0 <= j < b.attachments.len() && i != j
        implies (#[trigger] b.attachments[i]).part_id@ != (#[trigger] b.attachments[j]).part_id@ by {
        assert(attachment_built(b.attachments[i], account.id, folder_path, uid, i as nat, parts[i]));
        assert(attachment_built(b.attachments[j], account.id, folder_path, uid, j as nat, parts[j]));
        if b.attachments[i].part_id@ == b.attachments[j].part_id@ {
            crate::text::lemma_decimal_injective((i + 1) as nat, (j + 1) as nat);
        }
    }
    assert forall|j: int| 0 <= j < b.attachments.len() implies crate::store::attachment_of(b.account_id@, b.folder_path@, b.uid)(#[trigger] b.attachments[j])
        && crate::store::has_account(v.accounts, b.attachments[j].account_id@) by {
        assert(attachment_built(b.attachments[j], account.id, folder_path, uid, j as nat, parts[j]));
    }
    crate::store::lemma_cached_body_read_after_save(v, b);
}

/// The attachments of the message in `raw`, from position `i` on, up to the
/// first position without one.
pub open spec fn mail_parts_from(raw: Seq<u8>, i: nat, count: nat) -> Seq<PartView>
    decreases count - i,
{
    if i >= count {
        Seq::empty()
    } else {
        match mail_attachment(raw, i) {
            Some(p) => seq![p] + mail_parts_from(raw, i + 1, count),
            None => Seq::empty(),
        }
    }
}

/// The attachments of the message in `raw`, in order.
pub open spec fn mail_parts(raw: Seq<u8>) -> Seq<PartView> {
    mail_parts_from(raw, 0, mail_attachment_count(raw))
}

fn parts_of(m: &ParsedMail) -> (r: Vec<PartInfo>)
    ensures
        part_views(r@) == mail_parts(m@),
        forall|i: int| 0 <= i < r@.len() ==> (#[trigger] r@[i]).size <= isize::MAX,
{
    let count = attachment_count_of(m);
    let ghost total = mail_parts(m@);
    let mut out: Vec<PartInfo> = Vec::new();
    let mut i: usize = 0;
    let mut done = false;
    while i < count
        invariant
            count == mail_attachment_count(m@),
            total == mail_parts(m@),
            i <= count,
            done ==> i == count,
            !done ==> part_views(out@) + mail_parts_from(m@, i as nat, count as nat) == total,
            done ==> part_views(out@) == total,
            forall|k: int| 0 <= k < out@.len() ==> (#[trigger] out@[k]).size <= isize::MAX,
        decreases count - i,
    {
        match attachment_at(m, i) {
            Some(p) => {
                let ghost before = part_views(out@);
                assert(mail_parts_from(m@, i as nat, count as nat) == seq![p@] + mail_parts_from(m@, (i + 1) as nat, count as nat));
                out.push(p);
                assert(part_views(out@) =~= before.push(p@));
                assert(before + (seq![p@] + mail_parts_from(m@, (i + 1) as nat, count as nat)) =~= before.push(p@) + mail_parts_from(m@, (i + 1) as nat, count as nat));
                i = i + 1;
            },
            None => {
                assert(mail_parts_from(m@, i as nat, count as nat) =~= Seq::<PartView>::empty());
                assert(part_views(out@) + Seq::<PartView>::empty() =~= part_views(out@));
                done = true;
                i = count;
            },
        }
    }
    if !done {
        assert(mail_parts_from(m@, i as nat, count as nat) =~= Seq::<PartView>::empty());
        assert(part_views(out@) + Seq::<PartView>::empty() =~= part_views(out@));
    }
    out
}

/// The body of message `uid` in `folder_path` of `account`, read from its raw
/// bytes and dated now; fails when the parser finds no message.
pub fn parse_body(account: &Account, folder_path: &str, uid: i64, raw: &[u8]) -> (r: AppResult<MessageBody>)
    ensures
        !mail_parses(raw@) ==> (r matches Err(e) && e matches AppError::Mail(msg) && msg@ == "failed to parse message body"@),
        mail_parses(raw@) ==> (r matches Ok(b) && body_built(b@, *account, folder_path@, uid, mail_text_body(raw@), mail_html_body(raw@), mail_parts(raw@))),
        r matches Ok(b) ==> forall|i: int| 0 <= i < b.attachments@.len() ==> {
            let k = mail_parts(raw@)[i].1;
            &&& k == PartKind::Text ==> (#[trigger] b.attachments@[i]).mime_type@ == "text/plain"@
            &&& k == PartKind::Html ==> b.attachments@[i].mime_type@ == "text/html"@
            &&& k != PartKind::Text && k != PartKind::Html ==> b.attachments@[i].mime_type@ == "application/octet-stream"@
        },
{
    let m = match parse_mail(raw) {
        Some(m) => m,
        None => {
            return Err(AppError::Mail("failed to parse message body".to_owned()));
        },
    };
    let text = text_body_of(&m);
    let html = html_body_of(&m);
    let parts = parts_of(&m);
    let fetched_at = current_time();
    let b = body_from_parts(account, folder_path, uid, text, html, &parts, fetched_at);
    proof {
        let pv = part_views(parts@);
        assert forall|i: int| 0 <= i < b.attachments@.len() implies {
            let k = mail_parts(raw@)[i].1;
            &&& k == PartKind::Text ==> (#[trigger] b.attachments@[i]).mime_type@ == "text/plain"@
            &&& k == PartKind::Html ==> b.attachments@[i].mime_type@ == "text/html"@
            &&& k != PartKind::Text && k != PartKind::Html ==> b.attachments@[i].mime_type@ == "application/octet-stream"@
        } by {
            assert(b@.attachments[i] == b.attachments@[i]);
            lemma_attachment_mime_type(b@.attachments[i], account.id, folder_path@, uid, i as nat, pv[i]);
        }
    }
    Ok(b)
}

// ---------------------------------------------------------------------------
// Folders

/// The role of a folder by its path, ignoring ASCII case: `inbox`, `sent`
/// (for "sent", "sent messages" and "sent mail") or `trash` (for "trash",
/// "deleted" and "deleted messages").
pub open spec fn folder_role_of(path: Seq<char>) -> Option<Seq<char>> {
    let l = path.map_values(|c: char| ascii_lower(c));
    if l == "inbox"@ {
        Some("inbox"@)
    } else if l == "sent"@ || l == "sent messages"@ || l == "sent mail"@ {
        Some("sent"@)
    } else if l == "trash"@ || l == "deleted"@ || l == "deleted messages"@ {
        Some("trash"@)
    } else {
        None
    }
}

/// The name shown for a folder: the last `/`-separated part of its path.
pub fn display_folder_name(path: &str) -> (r: String)
    ensures
        r@ == after_last_seq(path@, '/'),
{
    after_last(path, '/')
}

/// The role of a folder by its path; see `folder_role_of`.
pub fn folder_role(path: &str) -> (r: Option<String>)
    ensures
        opt_str_view(r) == folder_role_of(path@),
{
    if ascii_lower_eq(path, "inbox") {
        Some("inbox".to_owned())
    } else if ascii_lower_eq(path, "sent") || ascii_lower_eq(path, "sent messages") || ascii_lower_eq(path, "sent mail") {
        Some("sent".to_owned())
    } else if ascii_lower_eq(path, "trash") || ascii_lower_eq(path, "deleted") || ascii_lower_eq(path, "deleted messages") {
        Some("trash".to_owned())
    } else {
        None
    }
}

/// The name shown for a folder is the end of its path and holds no `/`.
pub proof fn lemma_display_name_is_last_segment(path: Seq<char>)
    ensures
        !after_last_seq(path, '/').contains('/'),
        after_last_seq(path, '/').len() <= path.len(),
        path.skip(path.len() - after_last_seq(path, '/').len()) == after_last_seq(path, '/'),
    decreases path.len(),
{
    let r = after_last_seq(path, '/');
    if path.len() == 0 {
    } else if path.last() == '/' {
        assert(path.skip(path.len() as int) =~= r);
    } else {
        let t = path.drop_last();
        lemma_display_name_is_last_segment(t);
        let rt = after_last_seq(t, '/');
        assert(r == rt.push(path.last()));
        assert forall|k: int| 0 <= k < r.len() implies r[k] != '/' by {
            if k < rt.len() {
                assert(r[k] == rt[k]);
                assert(!rt.contains('/'));
                if rt[k] == '/' {
                    assert(rt.contains(rt[k]));
                }
            }
        }
        assert(path.skip(path.len() - r.len()) =~= t.skip(t.len() - rt.len()).push(path.last()));
    }
}

/// The role of a folder depends on its path only up to ASCII case.
pub proof fn lemma_folder_role_ignores_case(a: Seq<char>, b: Seq<char>)
    requires
        a.map_values(|c: char| ascii_lower(c)) == b.map_values(|c: char| ascii_lower(c)),
    ensures
        folder_role_of(a) == folder_role_of(b),
{
}

/// `f` is the folder row of account `account_id` for the server folder `path`.
pub open spec fn folder_built(f: Folder, account_id: String, path: Seq<char>) -> bool {
    &&& f.account_id == account_id
    &&& f.path@ == path
    &&& f.display_name@ == after_last_seq(path, '/')
    &&& opt_str_view(f.role) == folder_role_of(path)
    &&& f.uid_validity is None
    &&& f.last_synced_uid is None
}

/// How a mail server connection is reached: directly over TLS, or upgraded
/// with STARTTLS.
#[derive(Clone, Copy, Debug, PartialEq, Eq, Structural)]
pub enum SmtpRelay {
    Tls,
    StartTls,
}

/// A message fetched from the server: its uid, its flags as text, and the
/// raw bytes of its headers, where the server sent them.
#[derive(Debug)]
pub struct FetchedMessage {
    pub uid: Option<u32>,
    pub flags: Vec<String>,
    pub body: Option<Vec<u8>>,
}

/// The decisions of the mail client: everything but the network.
pub struct MailClient;

/// The message of a connection test.
pub open spec fn connection_message(imap_ok: bool, smtp_ok: bool) -> Seq<char> {
    if imap_ok && smtp_ok {
        "IMAP and SMTP connections succeeded."@
    } else if imap_ok {
        "IMAP succeeded, but SMTP failed."@
    } else if smtp_ok {
        "SMTP succeeded, but IMAP failed."@
    } else {
        "IMAP and SMTP connections failed."@
    }
}

/// The first uid of the newest `limit` messages of a mailbox of `total`
/// (the number `limit` taken modulo 2^32), never below 1.
pub open spec fn fetch_start(total: u32, limit: usize) -> int {
    let l = limit as u32;
    let s = if total > l { total - l } else { 0 };
    if s < 1 {
        1
    } else {
        s
    }
}

/// The view of a fetched message that has both a uid and a body.
pub open spec fn fetched_complete(f: FetchedMessage) -> bool {
    f.uid is Some && f.body is Some
}

impl MailClient {
    /// The folder rows of `account` for the server folders `paths`.
    pub fn folders_from_names(account: &Account, paths: &Vec<String>) -> (r: Vec<Folder>)
        ensures
            r@.len() == paths@.len(),
            forall|i: int| 0 <= i < paths@.len() ==> folder_built(#[trigger] r@[i], account.id, paths@[i]@),
    {
        let mut out: Vec<Folder> = Vec::new();
        let mut i: usize = 0;
        while i < paths.len()
            invariant
                i <= paths@.len(),
                out@.len() == i,
                forall|k: int| 0 <= k < i ==> folder_built(#[trigger] out@[k], account.id, paths@[k]@),
            decreases paths.len() - i,
        {
            let path = paths[i].as_str();
            out.push(Folder {
                account_id: account.id.clone(),
                path: path.to_owned(),
                display_name: display_folder_name(path),
                role: folder_role(path),
                uid_validity: None,
                last_synced_uid: None,
            });
            i = i + 1;
        }
        out
    }

    /// The report of a connection test that reached IMAP (`imap_ok`) and
    /// SMTP (`smtp_ok`).
    pub fn connection_report(imap_ok: bool, smtp_ok: bool) -> (r: ConnectionReport)
        ensures
            r.imap_ok == imap_ok,
            r.smtp_ok == smtp_ok,
            r.message@ == connection_message(imap_ok, smtp_ok),
    {
        let message = if imap_ok && smtp_ok {
            "IMAP and SMTP connections succeeded."
        } else if imap_ok {
            "IMAP succeeded, but SMTP failed."
        } else if smtp_ok {
            "SMTP succeeded, but IMAP failed."
        } else {
            "IMAP and SMTP connections failed."
        };
        ConnectionReport { imap_ok, smtp_ok, message: message.to_owned() }
    }

    /// Whether IMAP may be reached with `security`: only TLS is allowed.
    pub fn check_imap_security(security: SocketSecurity) -> (r: AppResult<()>)
        ensures
            security == SocketSecurity::Tls ==> r is Ok,
            security == SocketSecurity::Plain ==> (r matches Err(e) && is_validation(e, "plain IMAP is disabled in the first release"@)),
            security == SocketSecurity::StartTls ==> (r matches Err(e) && is_validation(e, "STARTTLS IMAP is not implemented yet; use TLS port 993"@)),
    {
        match security {
            SocketSecurity::Plain => Err(validation("plain IMAP is disabled in the first release")),
            SocketSecurity::StartTls => Err(validation("STARTTLS IMAP is not implemented yet; use TLS port 993")),
            SocketSecurity::Tls => Ok(()),
        }
    }

    /// How SMTP is reached with `security`: plain connections are refused.
    pub fn smtp_relay(security: SocketSecurity) -> (r: AppResult<SmtpRelay>)
        ensures
            security == SocketSecurity::Tls ==> r == Ok::<SmtpRelay, AppError>(SmtpRelay::Tls),
            security == SocketSecurity::StartTls ==> r == Ok::<SmtpRelay, AppError>(SmtpRelay::StartTls),
            security == SocketSecurity::Plain ==> (r matches Err(e) && is_validation(e, "plain SMTP is disabled in the first release"@)),
    {
        match security {
            SocketSecurity::Plain => Err(validation("plain SMTP is disabled in the first release")),
            SocketSecurity::Tls => Ok(SmtpRelay::Tls),
            SocketSecurity::StartTls => Ok(SmtpRelay::StartTls),
        }
    }

    /// The IMAP sequence set `start:total` of the newest `limit` messages of
    /// a mailbox holding `total`, or `None` for an empty mailbox.
    pub fn fetch_sequence(total: u32, limit: usize) -> (r: Option<String>)
        ensures
            total == 0 ==> r is None,
            total > 0 ==> (r matches Some(s) && s@ == decimal_seq(fetch_start(total, limit) as nat) + ":"@ + decimal_seq(total as nat)),
    {
        if total == 0 {
            return None;
        }
        let l = limit as u32;
        let s = total.saturating_sub(l);
        let start = if s < 1 { 1 } else { s };
        assert(start == fetch_start(total, limit));
        Some(decimal(start as usize).concat(":").concat(decimal(total as usize).as_str()))
    }

    /// The IMAP store command that sets (`seen`) or clears the `\Seen` flag.
    pub fn seen_store_command(seen: bool) -> (r: &'static str)
        ensures
            seen ==> r@ == "+FLAGS.SILENT (\\Seen)"@,
            !seen ==> r@ == "-FLAGS.SILENT (\\Seen)"@,
    {
        if seen {
            "+FLAGS.SILENT (\\Seen)"
        } else {
            "-FLAGS.SILENT (\\Seen)"
        }
    }

    /// The IMAP store command that marks a message deleted.
    pub fn deleted_store_command() -> (r: &'static str)
        ensures
            r@ == "+FLAGS.SILENT (\\Deleted)"@,
    {
        "+FLAGS.SILENT (\\Deleted)"
    }

    /// The inbox headers of `account` from the messages fetched: those
    /// without a uid or without header bytes are skipped, each other one is
    /// parsed, and the list is ordered newest first (equal times keeping the
    /// fetched order).
    pub fn headers_from_fetch(account: &Account, fetched: &Vec<FetchedMessage>) -> (r: Vec<MessageHeader>)
        ensures
            exists|hs: Seq<HeaderView>| #![trigger sort_by(hs, newer_first())] {
                let complete = fetched@.filter(|f: FetchedMessage| fetched_complete(f));
                &&& hs.len() == complete.len()
                &&& forall|i: int| 0 <= i < hs.len() ==> header_built(
                    #[trigger] hs[i],
                    *account,
                    "INBOX"@,
                    complete[i].uid.unwrap() as i64,
                    complete[i].flags@,
                    mail_header_parts(complete[i].body.unwrap()@),
                )
                &&& header_views(r@) == sort_by(hs, newer_first())
            },
    {
        let ghost p = |f: FetchedMessage| fetched_complete(f);
        let mut headers: Vec<MessageHeader> = Vec::new();
        let mut i: usize = 0;
        while i < fetched.len()
            invariant
                p == (|f: FetchedMessage| fetched_complete(f)),
                i <= fetched@.len(),
                headers@.len() == fetched@.take(i as int).filter(p).len(),
                forall|k: int| 0 <= k < headers@.len() ==> header_built(
                    (#[trigger] headers@[k])@,
                    *account,
                    "INBOX"@,
                    fetched@.take(i as int).filter(p)[k].uid.unwrap() as i64,
                    fetched@.take(i as int).filter(p)[k].flags@,
                    mail_header_parts(fetched@.take(i as int).filter(p)[k].body.unwrap()@),
                ),
            decreases fetched.len() - i,
        {
            let f = &fetched[i];
            proof {
                assert(fetched@.take(i + 1) =~= fetched@.take(i as int).push(*f));
                fetched@.take(i as int).lemma_filter_push(*f, p);
            }
            match (f.uid, &f.body) {
                (Some(uid), Some(body)) => {
                    let h = parse_header(account, "INBOX", uid as i64, &f.flags, body.as_slice());
                    headers.push(h);
                },
                _ => {},
            }
            i = i + 1;
        }
        assert(fetched@.take(fetched@.len() as int) =~= fetched@);
        let ghost hs = header_views(headers@);
        let sorted = crate::store::sorted_headers(headers);
        assert(forall|k: int| 0 <= k < hs.len() ==> #[trigger] hs[k] == headers@[k]@);
        assert(header_views(sorted@) == sort_by(hs, newer_first()));
        sorted
    }
}

} // verus!

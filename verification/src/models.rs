//! The records that the mail client stores and exchanges.
use vstd::prelude::*;

verus! {

/// A point in time: whole seconds since the Unix epoch (UTC) and the
/// nanoseconds within that second.
#[derive(Clone, Copy, Debug, PartialEq, Eq, Structural)]
pub struct Timestamp {
    pub seconds: i64,
    pub nanos: u32,
}

/// Whether `a` is strictly later than `b`.
pub open spec fn later_than(a: Timestamp, b: Timestamp) -> bool {
    a.seconds > b.seconds || (a.seconds == b.seconds && a.nanos > b.nanos)
}

impl Timestamp {
    /// Whether `self` is strictly later than `other`.
    pub fn is_later_than(&self, other: &Timestamp) -> (r: bool)
        ensures
            r == later_than(*self, *other),
    {
        self.seconds > other.seconds || (self.seconds == other.seconds && self.nanos > other.nanos)
    }
}

/// How a connection to a mail server is secured.
#[derive(Clone, Copy, Debug, PartialEq, Eq, Structural)]
pub enum SocketSecurity {
    Tls,
    StartTls,
    Plain,
}

/// The name under which a security mode is stored.
pub open spec fn security_label(s: SocketSecurity) -> Seq<char> {
    match s {
        SocketSecurity::Tls => "tls"@,
        SocketSecurity::StartTls => "startTls"@,
        SocketSecurity::Plain => "plain"@,
    }
}

/// The security mode that a stored name stands for; unknown names read as TLS.
pub open spec fn security_from_label(value: Seq<char>) -> SocketSecurity {
    if value == "startTls"@ {
        SocketSecurity::StartTls
    } else if value == "plain"@ {
        SocketSecurity::Plain
    } else {
        SocketSecurity::Tls
    }
}

impl SocketSecurity {
    /// The name under which this mode is stored.
    pub fn as_str(self) -> (r: &'static str)
        ensures
            r@ == security_label(self),
    {
        match self {
            SocketSecurity::Tls => "tls",
            SocketSecurity::StartTls => "startTls",
            SocketSecurity::Plain => "plain",
        }
    }

    /// The mode that a stored name stands for; any name other than
    /// `startTls` and `plain` gives `Tls`.
    pub fn from_db(value: &str) -> (r: SocketSecurity)
        ensures
            r == security_from_label(value@),
    {
        if crate::text::str_eq(value, "startTls") {
            SocketSecurity::StartTls
        } else if crate::text::str_eq(value, "plain") {
            SocketSecurity::Plain
        } else {
            SocketSecurity::Tls
        }
    }
}

/// Reading back the stored name of a mode gives the mode again.
pub proof fn lemma_security_label_round_trip(s: SocketSecurity)
    ensures
        security_from_label(security_label(s)) == s,
{
    reveal_strlit("tls");
    reveal_strlit("startTls");
    reveal_strlit("plain");
    assert("tls"@.len() == 3);
    assert("plain"@.len() == 5);
    assert("startTls"@.len() == 8);
    assert("tls"@ != "startTls"@);
    assert("tls"@ != "plain"@);
    assert("plain"@ != "startTls"@);
}

/// The view of an optional string.
pub open spec fn opt_str_view(o: Option<String>) -> Option<Seq<char>> {
    match o {
        Some(s) => Some(s@),
        None => None,
    }
}

/// A configured mail account.
#[derive(Debug)]
pub struct Account {
    pub id: String,
    pub display_name: String,
    pub email: String,
    pub imap_host: String,
    pub imap_port: u16,
    pub imap_security: SocketSecurity,
    pub smtp_host: String,
    pub smtp_port: u16,
    pub smtp_security: SocketSecurity,
    pub username: String,
    pub credential_key: String,
    pub is_default_sender: bool,
    pub sync_enabled: bool,
    pub last_error: Option<String>,
}

impl Clone for Account {
    fn clone(&self) -> (r: Self)
        ensures
            r == *self,
    {
        Account {
            id: self.id.clone(),
            display_name: self.display_name.clone(),
            email: self.email.clone(),
            imap_host: self.imap_host.clone(),
            imap_port: self.imap_port,
            imap_security: self.imap_security,
            smtp_host: self.smtp_host.clone(),
            smtp_port: self.smtp_port,
            smtp_security: self.smtp_security,
            username: self.username.clone(),
            credential_key: self.credential_key.clone(),
            is_default_sender: self.is_default_sender,
            sync_enabled: self.sync_enabled,
            last_error: self.last_error.clone(),
        }
    }
}

/// What a user enters to create or change an account.
#[derive(Debug)]
pub struct AccountInput {
    pub display_name: String,
    pub email: String,
    pub imap_host: String,
    pub imap_port: u16,
    pub imap_security: SocketSecurity,
    pub smtp_host: String,
    pub smtp_port: u16,
    pub smtp_security: SocketSecurity,
    pub username: String,
    pub password: Option<String>,
    pub is_default_sender: bool,
    pub sync_enabled: bool,
}

impl Clone for AccountInput {
    fn clone(&self) -> (r: Self)
        ensures
            r == *self,
    {
        AccountInput {
            display_name: self.display_name.clone(),
            email: self.email.clone(),
            imap_host: self.imap_host.clone(),
            imap_port: self.imap_port,
            imap_security: self.imap_security,
            smtp_host: self.smtp_host.clone(),
            smtp_port: self.smtp_port,
            smtp_security: self.smtp_security,
            username: self.username.clone(),
            password: self.password.clone(),
            is_default_sender: self.is_default_sender,
            sync_enabled: self.sync_enabled,
        }
    }
}

/// A mailbox folder of an account.
#[derive(Debug)]
pub struct Folder {
    pub account_id: String,
    pub path: String,
    pub display_name: String,
    pub role: Option<String>,
    pub uid_validity: Option<i64>,
    pub last_synced_uid: Option<i64>,
}

impl Clone for Folder {
    fn clone(&self) -> (r: Self)
        ensures
            r == *self,
    {
        Folder {
            account_id: self.account_id.clone(),
            path: self.path.clone(),
            display_name: self.display_name.clone(),
            role: self.role.clone(),
            uid_validity: self.uid_validity,
            last_synced_uid: self.last_synced_uid,
        }
    }
}

/// The summary of a message shown in a message list.
#[derive(Debug)]
pub struct MessageHeader {
    pub account_id: String,
    pub account_email: String,
    pub account_display_name: String,
    pub folder_path: String,
    pub uid: i64,
    pub message_id: Option<String>,
    pub subject: String,
    pub from: String,
    pub to: String,
    pub cc: Option<String>,
    pub date: Timestamp,
    pub flags: Vec<String>,
    pub has_attachments: bool,
    pub snippet: Option<String>,
}

/// A copy of the strings in `v`.
pub fn clone_strings(v: &Vec<String>) -> (r: Vec<String>)
    ensures
        r@ == v@,
{
    let r = v.clone();
    assert(r@ =~= v@);
    r
}

/// The content of a `MessageHeader`, with its flags as a sequence.
pub struct HeaderView {
    pub account_id: String,
    pub account_email: String,
    pub account_display_name: String,
    pub folder_path: String,
    pub uid: i64,
    pub message_id: Option<String>,
    pub subject: String,
    pub from: String,
    pub to: String,
    pub cc: Option<String>,
    pub date: Timestamp,
    pub flags: Seq<String>,
    pub has_attachments: bool,
    pub snippet: Option<String>,
}

impl View for MessageHeader {
    type V = HeaderView;

    open spec fn view(&self) -> HeaderView {
        HeaderView {
            account_id: self.account_id,
            account_email: self.account_email,
            account_display_name: self.account_display_name,
            folder_path: self.folder_path,
            uid: self.uid,
            message_id: self.message_id,
            subject: self.subject,
            from: self.from,
            to: self.to,
            cc: self.cc,
            date: self.date,
            flags: self.flags@,
            has_attachments: self.has_attachments,
            snippet: self.snippet,
        }
    }
}

impl Clone for MessageHeader {
    fn clone(&self) -> (r: Self)
        ensures
            r@ == self@,
    {
        MessageHeader {
            account_id: self.account_id.clone(),
            account_email: self.account_email.clone(),
            account_display_name: self.account_display_name.clone(),
            folder_path: self.folder_path.clone(),
            uid: self.uid,
            message_id: self.message_id.clone(),
            subject: self.subject.clone(),
            from: self.from.clone(),
            to: self.to.clone(),
            cc: self.cc.clone(),
            date: self.date,
            flags: clone_strings(&self.flags),
            has_attachments: self.has_attachments,
            snippet: self.snippet.clone(),
        }
    }
}

/// Metadata of one attachment of a message.
#[derive(Debug)]
pub struct AttachmentMeta {
    pub account_id: String,
    pub folder_path: String,
    pub uid: i64,
    pub filename: String,
    pub mime_type: String,
    pub size: Option<i64>,
    pub part_id: String,
}

impl Clone for AttachmentMeta {
    fn clone(&self) -> (r: Self)
        ensures
            r == *self,
    {
        AttachmentMeta {
            account_id: self.account_id.clone(),
            folder_path: self.folder_path.clone(),
            uid: self.uid,
            filename: self.filename.clone(),
            mime_type: self.mime_type.clone(),
            size: self.size,
            part_id: self.part_id.clone(),
        }
    }
}

/// The readable content of a message and its attachment list.
#[derive(Debug)]
pub struct MessageBody {
    pub account_id: String,
    pub folder_path: String,
    pub uid: i64,
    pub text_body: Option<String>,
    pub sanitized_html_body: Option<String>,
    pub fetched_at: Timestamp,
    pub attachments: Vec<AttachmentMeta>,
}

/// A copy of the attachment records in `v`.
pub fn clone_attachments(v: &Vec<AttachmentMeta>) -> (r: Vec<AttachmentMeta>)
    ensures
        r@ == v@,
{
    let r = v.clone();
    assert(r@ =~= v@);
    r
}

/// The content of a `MessageBody`, with its attachments as a sequence.
pub struct BodyView {
    pub account_id: String,
    pub folder_path: String,
    pub uid: i64,
    pub text_body: Option<String>,
    pub sanitized_html_body: Option<String>,
    pub fetched_at: Timestamp,
    pub attachments: Seq<AttachmentMeta>,
}

impl View for MessageBody {
    type V = BodyView;

    open spec fn view(&self) -> BodyView {
        BodyView {
            account_id: self.account_id,
            folder_path: self.folder_path,
            uid: self.uid,
            text_body: self.text_body,
            sanitized_html_body: self.sanitized_html_body,
            fetched_at: self.fetched_at,
            attachments: self.attachments@,
        }
    }
}

impl Clone for MessageBody {
    fn clone(&self) -> (r: Self)
        ensures
            r@ == self@,
    {
        MessageBody {
            account_id: self.account_id.clone(),
            folder_path: self.folder_path.clone(),
            uid: self.uid,
            text_body: self.text_body.clone(),
            sanitized_html_body: self.sanitized_html_body.clone(),
            fetched_at: self.fetched_at,
            attachments: clone_attachments(&self.attachments),
        }
    }
}

/// A message that a user wants to send.
#[derive(Debug)]
pub struct SendMessageInput {
    pub account_id: String,
    pub to: Vec<String>,
    pub cc: Vec<String>,
    pub bcc: Vec<String>,
    pub subject: String,
    pub body: String,
    pub attachments: Vec<String>,
}

/// The content of a `SendMessageInput`, with its lists as sequences.
pub struct SendView {
    pub account_id: String,
    pub to: Seq<String>,
    pub cc: Seq<String>,
    pub bcc: Seq<String>,
    pub subject: String,
    pub body: String,
    pub attachments: Seq<String>,
}

impl View for SendMessageInput {
    type V = SendView;

    open spec fn view(&self) -> SendView {
        SendView {
            account_id: self.account_id,
            to: self.to@,
            cc: self.cc@,
            bcc: self.bcc@,
            subject: self.subject,
            body: self.body,
            attachments: self.attachments@,
        }
    }
}

impl Clone for SendMessageInput {
    fn clone(&self) -> (r: Self)
        ensures
            r@ == self@,
    {
        SendMessageInput {
            account_id: self.account_id.clone(),
            to: clone_strings(&self.to),
            cc: clone_strings(&self.cc),
            bcc: clone_strings(&self.bcc),
            subject: self.subject.clone(),
            body: self.body.clone(),
            attachments: clone_strings(&self.attachments),
        }
    }
}

/// The outcome of synchronising one account's inbox.
#[derive(Debug)]
pub struct SyncReport {
    pub account_id: String,
    pub synced: usize,
    pub error: Option<String>,
}

/// Which of the two servers of an account could be reached.
#[derive(Debug)]
pub struct ConnectionReport {
    pub imap_ok: bool,
    pub smtp_ok: bool,
    pub message: String,
}

} // verus!

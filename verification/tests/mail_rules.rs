use unified_mail::error::AppError;
use unified_mail::mail::{
    display_folder_name, folder_role, format_addr, format_addresses, header_from_parts, parse_body,
    parse_header, sanitize_html, AddressList, FetchedMessage, HeaderParts, MailAddr, MailClient,
    SmtpRelay,
};
use unified_mail::models::{Account, SocketSecurity, Timestamp};

fn mail_account() -> Account {
    Account {
        id: "a".to_string(),
        display_name: "A".to_string(),
        email: "a@example.com".to_string(),
        imap_host: "imap.example.com".to_string(),
        imap_port: 993,
        imap_security: SocketSecurity::Tls,
        smtp_host: "smtp.example.com".to_string(),
        smtp_port: 465,
        smtp_security: SocketSecurity::Tls,
        username: "a@example.com".to_string(),
        credential_key: "key".to_string(),
        is_default_sender: true,
        sync_enabled: true,
        last_error: None,
    }
}

fn addr(name: Option<&str>, address: Option<&str>) -> MailAddr {
    MailAddr { name: name.map(|s| s.to_string()), address: address.map(|s| s.to_string()) }
}

#[test]
fn one_address_is_shown_by_what_it_has() {
    assert_eq!(format_addr(&addr(Some("Ann"), Some("ann@example.com"))), "Ann <ann@example.com>");
    assert_eq!(format_addr(&addr(None, Some("ann@example.com"))), "ann@example.com");
    assert_eq!(format_addr(&addr(Some("Ann"), None)), "Ann");
    assert_eq!(format_addr(&addr(None, None)), "");
}

#[test]
fn address_lists_and_groups_are_joined() {
    let list = AddressList::List(vec![addr(Some("Ann"), Some("ann@x.org")), addr(None, Some("bob@x.org"))]);
    assert_eq!(format_addresses(&list), "Ann <ann@x.org>, bob@x.org");
    let groups = AddressList::Group(vec![
        vec![addr(None, Some("a@x.org"))],
        vec![],
        vec![addr(Some("B"), None), addr(None, Some("c@x.org"))],
    ]);
    assert_eq!(format_addresses(&groups), "a@x.org, B, c@x.org");
    assert_eq!(format_addresses(&AddressList::List(vec![])), "");
}

#[test]
fn folder_names_and_roles() {
    assert_eq!(display_folder_name("[Gmail]/Sent Mail"), "Sent Mail");
    assert_eq!(display_folder_name("INBOX"), "INBOX");
    assert_eq!(display_folder_name("a/b/"), "");
    assert_eq!(folder_role("INBOX").as_deref(), Some("inbox"));
    assert_eq!(folder_role("Sent Messages").as_deref(), Some("sent"));
    assert_eq!(folder_role("SENT MAIL").as_deref(), Some("sent"));
    assert_eq!(folder_role("sent").as_deref(), Some("sent"));
    assert_eq!(folder_role("Trash").as_deref(), Some("trash"));
    assert_eq!(folder_role("Deleted").as_deref(), Some("trash"));
    assert_eq!(folder_role("deleted messages").as_deref(), Some("trash"));
    assert_eq!(folder_role("[Gmail]/Sent Mail"), None);
    assert_eq!(folder_role("Archive"), None);
}

#[test]
fn folders_are_built_from_server_names() {
    let account = mail_account();
    let folders = MailClient::folders_from_names(&account, &vec!["INBOX".to_string(), "Work/Trash".to_string()]);
    assert_eq!(folders.len(), 2);
    assert_eq!(folders[0].account_id, "a");
    assert_eq!(folders[0].role.as_deref(), Some("inbox"));
    assert_eq!(folders[1].path, "Work/Trash");
    assert_eq!(folders[1].display_name, "Trash");
    assert_eq!(folders[1].role, None);
    assert_eq!(folders[1].last_synced_uid, None);
}

#[test]
fn connection_reports_name_what_failed() {
    assert_eq!(MailClient::connection_report(true, true).message, "IMAP and SMTP connections succeeded.");
    assert_eq!(MailClient::connection_report(true, false).message, "IMAP succeeded, but SMTP failed.");
    assert_eq!(MailClient::connection_report(false, true).message, "SMTP succeeded, but IMAP failed.");
    let r = MailClient::connection_report(false, false);
    assert_eq!(r.message, "IMAP and SMTP connections failed.");
    assert!(!r.imap_ok && !r.smtp_ok);
}

#[test]
fn only_tls_imap_is_allowed() {
    assert!(MailClient::check_imap_security(SocketSecurity::Tls).is_ok());
    match MailClient::check_imap_security(SocketSecurity::Plain) {
        Err(AppError::Validation(m)) => assert_eq!(m, "plain IMAP is disabled in the first release"),
        other => panic!("unexpected {other:?}"),
    }
    match MailClient::check_imap_security(SocketSecurity::StartTls) {
        Err(AppError::Validation(m)) => assert_eq!(m, "STARTTLS IMAP is not implemented yet; use TLS port 993"),
        other => panic!("unexpected {other:?}"),
    }
}

#[test]
fn smtp_relay_follows_the_security_mode() {
    assert_eq!(MailClient::smtp_relay(SocketSecurity::Tls).unwrap(), SmtpRelay::Tls);
    assert_eq!(MailClient::smtp_relay(SocketSecurity::StartTls).unwrap(), SmtpRelay::StartTls);
    match MailClient::smtp_relay(SocketSecurity::Plain) {
        Err(AppError::Validation(m)) => assert_eq!(m, "plain SMTP is disabled in the first release"),
        other => panic!("unexpected {other:?}"),
    }
}

#[test]
fn fetch_sequence_takes_the_newest_messages() {
    assert_eq!(MailClient::fetch_sequence(0, 100), None);
    assert_eq!(MailClient::fetch_sequence(5, 100).as_deref(), Some("1:5"));
    assert_eq!(MailClient::fetch_sequence(100, 100).as_deref(), Some("1:100"));
    assert_eq!(MailClient::fetch_sequence(101, 100).as_deref(), Some("1:101"));
    assert_eq!(MailClient::fetch_sequence(250, 100).as_deref(), Some("150:250"));
    assert_eq!(MailClient::fetch_sequence(7, 0).as_deref(), Some("7:7"));
}

#[test]
fn store_commands_for_flags() {
    assert_eq!(MailClient::seen_store_command(true), "+FLAGS.SILENT (\\Seen)");
    assert_eq!(MailClient::seen_store_command(false), "-FLAGS.SILENT (\\Seen)");
    assert_eq!(MailClient::deleted_store_command(), "+FLAGS.SILENT (\\Deleted)");
}

#[test]
fn html_is_escaped_entity_by_entity() {
    assert_eq!(
        sanitize_html("<a href='x'>T&C \"ok\"</a>"),
        "&lt;a href=&#x27;x&#x27;&gt;T&amp;C &quot;ok&quot;&lt;&#x2F;a&gt;"
    );
    assert_eq!(sanitize_html("plain text"), "plain text");
}

#[test]
fn header_fields_are_formatted() {
    let account = mail_account();
    let raw = b"Message-ID: <m1@example.com>\r\nFrom: Sender <sender@example.com>\r\nTo: A <a@example.com>, b@example.com\r\nCc: c@example.com\r\nSubject: Hello\r\nDate: Thu, 14 May 2026 08:00:00 +0000\r\n\r\n";
    let flags = vec!["\\Seen".to_string()];
    let h = parse_header(&account, "INBOX", 7, &flags, raw);
    assert_eq!(h.account_id, "a");
    assert_eq!(h.account_email, "a@example.com");
    assert_eq!(h.account_display_name, "A");
    assert_eq!(h.folder_path, "INBOX");
    assert_eq!(h.uid, 7);
    assert_eq!(h.message_id.as_deref(), Some("m1@example.com"));
    assert_eq!(h.subject, "Hello");
    assert_eq!(h.from, "Sender <sender@example.com>");
    assert_eq!(h.to, "A <a@example.com>, b@example.com");
    assert_eq!(h.cc.as_deref(), Some("c@example.com"));
    assert_eq!(h.date, Timestamp { seconds: 1778745600, nanos: 0 });
    assert_eq!(h.flags, flags);
    assert!(!h.has_attachments);
    assert!(h.snippet.is_none());
}

#[test]
fn missing_header_fields_have_defaults() {
    let account = mail_account();
    let raw = b"X-Other: 1\r\n\r\nbody";
    let h = parse_header(&account, "INBOX", 1, &vec![], raw);
    assert_eq!(h.subject, "(No subject)");
    assert_eq!(h.from, "");
    assert_eq!(h.to, "");
    assert!(h.cc.is_none());
    assert!(h.message_id.is_none());
    // Without a date the header is dated now.
    assert!(h.date.seconds > 1_700_000_000);
}

#[test]
fn header_from_parts_uses_now_only_without_a_date() {
    let account = mail_account();
    let now = Timestamp { seconds: 42, nanos: 7 };
    let parts = HeaderParts { subject: None, from: None, to: None, cc: None, message_id: None, date: None };
    assert_eq!(header_from_parts(&account, "X", 1, &vec![], &parts, now).date, now);
    let parts = HeaderParts {
        subject: Some("S".to_string()),
        from: Some(AddressList::List(vec![addr(None, Some("f@x.org"))])),
        to: None,
        cc: Some(AddressList::List(vec![])),
        message_id: None,
        date: Some(100),
    };
    let h = header_from_parts(&account, "X", 1, &vec![], &parts, now);
    assert_eq!(h.date, Timestamp { seconds: 100, nanos: 0 });
    assert_eq!(h.subject, "S");
    assert_eq!(h.from, "f@x.org");
    assert_eq!(h.cc.as_deref(), Some(""));
}

#[test]
fn body_with_html_and_attachments() {
    let account = mail_account();
    let raw = b"From: s@example.com\r\nSubject: Files\r\nMIME-Version: 1.0\r\nContent-Type: multipart/mixed; boundary=\"b\"\r\n\r\n--b\r\nContent-Type: text/html\r\n\r\n<p>Hi</p>\r\n--b\r\nContent-Type: application/pdf; name=\"doc.pdf\"\r\nContent-Disposition: attachment; filename=\"doc.pdf\"\r\nContent-Transfer-Encoding: base64\r\n\r\naGVsbG8=\r\n--b\r\nContent-Type: application/octet-stream\r\nContent-Disposition: attachment\r\n\r\nabc\r\n--b--\r\n";
    let body = parse_body(&account, "Archive", 12, raw).unwrap();
    assert_eq!(body.account_id, "a");
    assert_eq!(body.folder_path, "Archive");
    assert_eq!(body.uid, 12);
    let html = body.sanitized_html_body.unwrap();
    assert!(html.starts_with("&lt;p&gt;Hi&lt;&#x2F;p&gt;"));
    assert!(!html.contains('<'));
    assert_eq!(body.attachments.len(), 2);
    let first = &body.attachments[0];
    assert_eq!(first.filename, "doc.pdf");
    assert_eq!(first.part_id, "1");
    assert_eq!(first.mime_type, "application/octet-stream");
    assert_eq!(first.size, Some(5));
    assert_eq!(first.uid, 12);
    let second = &body.attachments[1];
    assert_eq!(second.filename, "attachment-2");
    assert_eq!(second.part_id, "2");
}

#[test]
fn unparsable_body_is_a_mail_error() {
    let account = mail_account();
    match parse_body(&account, "INBOX", 1, b"") {
        Err(AppError::Mail(m)) => assert_eq!(m, "failed to parse message body"),
        other => panic!("unexpected {other:?}"),
    }
}

#[test]
fn fetched_messages_become_headers_newest_first() {
    let account = mail_account();
    let older = b"Subject: Old\r\nDate: Wed, 13 May 2026 08:00:00 +0000\r\n\r\n".to_vec();
    let newer = b"Subject: New\r\nDate: Thu, 14 May 2026 08:00:00 +0000\r\n\r\n".to_vec();
    let fetched = vec![
        FetchedMessage { uid: Some(1), flags: vec![], body: Some(older) },
        FetchedMessage { uid: None, flags: vec![], body: Some(b"Subject: Lost\r\n\r\n".to_vec()) },
        FetchedMessage { uid: Some(3), flags: vec![], body: None },
        FetchedMessage { uid: Some(2), flags: vec!["\\Seen".to_string()], body: Some(newer) },
    ];
    let headers = MailClient::headers_from_fetch(&account, &fetched);
    assert_eq!(headers.len(), 2);
    assert_eq!(headers[0].subject, "New");
    assert_eq!(headers[0].uid, 2);
    assert_eq!(headers[0].flags, vec!["\\Seen".to_string()]);
    assert_eq!(headers[1].subject, "Old");
    assert_eq!(headers[0].folder_path, "INBOX");
}

use unified_mail::error::AppError;
use unified_mail::models::{Account, SendMessageInput, SocketSecurity};
use unified_mail::outgoing::{
    attachment_name, compose_message, outgoing_message, parse_mailbox, prepare_envelope, OutgoingAttachment,
};

fn sender(email: &str) -> Account {
    Account {
        id: "a".to_string(),
        display_name: "A".to_string(),
        email: email.to_string(),
        imap_host: "imap.example.com".to_string(),
        imap_port: 993,
        imap_security: SocketSecurity::Tls,
        smtp_host: "smtp.example.com".to_string(),
        smtp_port: 465,
        smtp_security: SocketSecurity::Tls,
        username: email.to_string(),
        credential_key: "key".to_string(),
        is_default_sender: true,
        sync_enabled: true,
        last_error: None,
    }
}

fn message(to: &[&str], cc: &[&str], bcc: &[&str]) -> SendMessageInput {
    SendMessageInput {
        account_id: "a".to_string(),
        to: to.iter().map(|s| s.to_string()).collect(),
        cc: cc.iter().map(|s| s.to_string()).collect(),
        bcc: bcc.iter().map(|s| s.to_string()).collect(),
        subject: "  Greetings  ".to_string(),
        body: "Hello there".to_string(),
        attachments: vec![],
    }
}

fn validation_text<T>(r: Result<T, AppError>) -> String {
    match r {
        Err(AppError::Validation(m)) => m,
        Err(other) => panic!("expected a validation error, got {other:?}"),
        Ok(_) => panic!("expected a validation error, got a success"),
    }
}

#[test]
fn mailboxes_are_trimmed_before_parsing() {
    assert!(parse_mailbox("  Ann <ann@example.com> ").is_ok());
    assert!(parse_mailbox("bob@example.com").is_ok());
    assert!(validation_text(parse_mailbox("not an address")).starts_with("invalid email address: "));
}

#[test]
fn a_message_needs_a_recipient() {
    assert_eq!(
        validation_text(prepare_envelope(&sender("a@example.com"), &message(&[], &["c@example.com"], &[]))),
        "at least one recipient is required"
    );
}

#[test]
fn bad_addresses_are_reported_in_order() {
    let bad_from = prepare_envelope(&sender("broken"), &message(&["x@example.com"], &[], &[]));
    assert!(validation_text(bad_from).starts_with("invalid email address: "));
    let bad_cc = prepare_envelope(&sender("a@example.com"), &message(&["x@example.com"], &["nope"], &[]));
    assert!(validation_text(bad_cc).starts_with("invalid email address: "));
    let bad_bcc = prepare_envelope(&sender("a@example.com"), &message(&["x@example.com"], &[], &["@@"]));
    assert!(validation_text(bad_bcc).starts_with("invalid email address: "));
}

#[test]
fn envelope_keeps_parties_and_trims_the_subject() {
    let env = prepare_envelope(
        &sender("a@example.com"),
        &message(&["x@example.com", "Y <y@example.com>"], &["c@example.com"], &["b@example.com"]),
    )
    .unwrap();
    assert_eq!(env.subject, "Greetings");
    assert_eq!(env.body, "Hello there");
    assert_eq!(env.to.len(), 2);
    assert_eq!(env.cc.len(), 1);
    assert_eq!(env.bcc.len(), 1);
}

#[test]
fn composed_message_carries_text_and_attachments() {
    let env = prepare_envelope(&sender("a@example.com"), &message(&["x@example.com"], &[], &["hidden@example.com"]))
        .unwrap();
    let attachments = vec![OutgoingAttachment { filename: "notes.txt".to_string(), bytes: b"abc".to_vec() }];
    let email = compose_message(outgoing_message(env, attachments)).unwrap().into_message();
    let text = String::from_utf8(email.formatted()).unwrap();
    assert!(text.contains("Subject: Greetings"));
    assert!(text.contains("To: x@example.com"));
    assert!(!text.contains("hidden@example.com"));
    assert!(text.contains("multipart/mixed"));
    assert!(text.contains("Hello there"));
    assert!(text.contains("notes.txt"));
    assert!(text.contains("application/octet-stream"));
}

#[test]
fn attachments_are_named_by_their_file_name() {
    assert_eq!(attachment_name("/home/me/report.pdf"), "report.pdf");
    assert_eq!(attachment_name("notes.txt"), "notes.txt");
    assert_eq!(attachment_name("/home/me/.."), "attachment");
    assert_eq!(attachment_name("/"), "attachment");
}

#[test]
fn envelope_keeps_each_address_in_its_role_and_order() {
    let env = prepare_envelope(
        &sender(" a@example.com "),
        &message(&["x@example.com", "Y <y@example.com>"], &["c@example.com"], &["b@example.com"]),
    )
    .unwrap();
    assert_eq!(env.from.address(), "a@example.com");
    assert_eq!(env.to[0].address(), "x@example.com");
    assert_eq!(env.to[0].name(), None);
    assert_eq!(env.to[1].address(), "y@example.com");
    assert_eq!(env.to[1].name().as_deref(), Some("Y"));
    assert_eq!(env.cc[0].address(), "c@example.com");
    assert_eq!(env.bcc[0].address(), "b@example.com");
}

#[test]
fn bare_file_names_are_kept() {
    assert_eq!(attachment_name("report.pdf"), "report.pdf");
    assert_eq!(attachment_name(""), "attachment");
    assert_eq!(attachment_name("."), "attachment");
    assert_eq!(attachment_name(".."), "attachment");
}

#[test]
fn a_message_is_built_when_any_recipient_is_left() {
    let mut env =
        prepare_envelope(&sender("a@example.com"), &message(&["x@example.com"], &[], &["b@example.com"])).unwrap();
    env.to.clear();
    let email = compose_message(outgoing_message(env, vec![])).unwrap().into_message();
    let text = String::from_utf8(email.formatted()).unwrap();
    assert!(!text.contains("x@example.com"));
    assert_eq!(email.envelope().to().len(), 1);

    let mut env = prepare_envelope(&sender("a@example.com"), &message(&["x@example.com"], &[], &[])).unwrap();
    env.to.clear();
    assert!(matches!(compose_message(outgoing_message(env, vec![])), Err(AppError::Mail(_))));
}

#[test]
fn composed_roles_and_parts_keep_their_order() {
    let env = prepare_envelope(
        &sender("a@example.com"),
        &message(&["t1@example.com", "t2@example.com"], &["c@example.com"], &["b@example.com"]),
    )
    .unwrap();
    let attachments = vec![
        OutgoingAttachment { filename: "one.txt".to_string(), bytes: b"1".to_vec() },
        OutgoingAttachment { filename: "two.txt".to_string(), bytes: b"2".to_vec() },
    ];
    let email = compose_message(outgoing_message(env, attachments)).unwrap().into_message();
    let text = String::from_utf8(email.formatted()).unwrap();
    assert!(text.contains("To: t1@example.com, t2@example.com"));
    assert!(text.contains("Cc: c@example.com"));
    assert!(text.contains("From: a@example.com"));
    assert_eq!(email.envelope().to().len(), 4);
    let one = text.find("one.txt").unwrap();
    let two = text.find("two.txt").unwrap();
    assert!(one < two);
}

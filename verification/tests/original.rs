use unified_mail::credentials::{CredentialStore, MemoryCredentialStore};
use unified_mail::mail::{parse_body, parse_header};
use unified_mail::models::{Account, MessageHeader, SocketSecurity, Timestamp};
use unified_mail::store::Store;

fn mail_account() -> Account {
    Account {
        id: "a".to_string(),
        display_name: "A".to_string(),
        email: "a@example.com".to_string(),
        imap_host: "imap.example.com".to_string(),
        imap_port: 993,
        imap_security: SocketSecurity::Tls,
        smtp_host: "smtp.example.com".to_string(),
        smtp_port: 465,
        smtp_security: SocketSecurity::Tls,
        username: "a@example.com".to_string(),
        credential_key: "key".to_string(),
        is_default_sender: true,
        sync_enabled: true,
        last_error: None,
    }
}

fn account(id: &str, default: bool) -> Account {
    Account {
        id: id.to_string(),
        display_name: format!("Account {id}"),
        email: format!("{id}@example.com"),
        imap_host: "imap.example.com".to_string(),
        imap_port: 993,
        imap_security: SocketSecurity::Tls,
        smtp_host: "smtp.example.com".to_string(),
        smtp_port: 465,
        smtp_security: SocketSecurity::Tls,
        username: format!("{id}@example.com"),
        credential_key: format!("credential-{id}"),
        is_default_sender: default,
        sync_enabled: true,
        last_error: None,
    }
}

fn parse_date(value: &str) -> Timestamp {
    let date = chrono::DateTime::parse_from_rfc3339(value).unwrap();
    Timestamp { seconds: date.timestamp(), nanos: date.timestamp_subsec_nanos() }
}

#[test]
fn mock_store_round_trips_passwords() {
    let mut store = MemoryCredentialStore::new();

    store.set_password("account-1", "secret").unwrap();
    assert_eq!(store.get_password("account-1").unwrap(), "secret");
    store.delete_password("account-1").unwrap();
    assert!(store.get_password("account-1").is_err());
}

#[test]
fn parses_plain_text_message() {
    let account = mail_account();
    let raw = b"From: Sender <sender@example.com>\r\nTo: A <a@example.com>\r\nSubject: Hello\r\nDate: Thu, 14 May 2026 08:00:00 +0000\r\n\r\nBody text";
    let header = parse_header(&account, "INBOX", 1, &vec![], raw);
    assert_eq!(header.subject, "Hello");

    let body = parse_body(&account, "INBOX", 1, raw).unwrap();
    assert!(body.text_body.unwrap().contains("Body text"));
}

#[test]
fn default_sender_is_unique() {
    let mut store = Store::in_memory().unwrap();
    store.upsert_account(&account("a", true)).unwrap();
    store.upsert_account(&account("b", true)).unwrap();

    let accounts = store.accounts().unwrap();
    assert_eq!(accounts.iter().filter(|account| account.is_default_sender).count(), 1);
    assert_eq!(store.default_account().unwrap().unwrap().id, "b");
}

#[test]
fn unified_inbox_sorts_across_accounts() {
    let mut store = Store::in_memory().unwrap();
    store.upsert_account(&account("a", true)).unwrap();
    store.upsert_account(&account("b", false)).unwrap();

    for (account_id, uid, date) in [("a", 1, "2026-05-13T08:00:00Z"), ("b", 2, "2026-05-14T08:00:00Z")] {
        store
            .upsert_message_header(&MessageHeader {
                account_id: account_id.to_string(),
                account_email: format!("{account_id}@example.com"),
                account_display_name: account_id.to_string(),
                folder_path: "INBOX".to_string(),
                uid,
                message_id: None,
                subject: format!("Subject {uid}"),
                from: "sender@example.com".to_string(),
                to: "me@example.com".to_string(),
                cc: None,
                date: parse_date(date),
                flags: vec![],
                has_attachments: false,
                snippet: None,
            })
            .unwrap();
    }

    let inbox = store.unified_inbox(None).unwrap();
    assert_eq!(inbox[0].account_id, "b");
    assert_eq!(store.unified_inbox(Some("a")).unwrap().len(), 1);
}

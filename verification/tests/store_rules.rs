use unified_mail::error::AppError;
use unified_mail::models::{Account, AttachmentMeta, Folder, MessageBody, MessageHeader, SocketSecurity, Timestamp};
use unified_mail::store::{BodyRow, Store};

fn account(id: &str, name: &str, default: bool) -> Account {
    Account {
        id: id.to_string(),
        display_name: name.to_string(),
        email: format!("{id}@example.com"),
        imap_host: "imap.example.com".to_string(),
        imap_port: 993,
        imap_security: SocketSecurity::Tls,
        smtp_host: "smtp.example.com".to_string(),
        smtp_port: 465,
        smtp_security: SocketSecurity::Tls,
        username: format!("{id}@example.com"),
        credential_key: format!("credential-{id}"),
        is_default_sender: default,
        sync_enabled: true,
        last_error: None,
    }
}

fn folder(account_id: &str, path: &str, name: &str, role: Option<&str>) -> Folder {
    Folder {
        account_id: account_id.to_string(),
        path: path.to_string(),
        display_name: name.to_string(),
        role: role.map(|r| r.to_string()),
        uid_validity: None,
        last_synced_uid: None,
    }
}

fn header(account_id: &str, folder_path: &str, uid: i64, seconds: i64) -> MessageHeader {
    MessageHeader {
        account_id: account_id.to_string(),
        account_email: "ignored@example.com".to_string(),
        account_display_name: "ignored".to_string(),
        folder_path: folder_path.to_string(),
        uid,
        message_id: None,
        subject: format!("Subject {uid}"),
        from: "sender@example.com".to_string(),
        to: "me@example.com".to_string(),
        cc: None,
        date: Timestamp { seconds, nanos: 0 },
        flags: vec!["\\Seen".to_string()],
        has_attachments: false,
        snippet: None,
    }
}

fn attachment(account_id: &str, uid: i64, filename: &str, part_id: &str) -> AttachmentMeta {
    AttachmentMeta {
        account_id: account_id.to_string(),
        folder_path: "INBOX".to_string(),
        uid,
        filename: filename.to_string(),
        mime_type: "application/octet-stream".to_string(),
        size: Some(3),
        part_id: part_id.to_string(),
    }
}

fn body(account_id: &str, uid: i64, attachments: Vec<AttachmentMeta>) -> MessageBody {
    MessageBody {
        account_id: account_id.to_string(),
        folder_path: "INBOX".to_string(),
        uid,
        text_body: Some("hello".to_string()),
        sanitized_html_body: None,
        fetched_at: Timestamp { seconds: 100, nanos: 5 },
        attachments,
    }
}

#[test]
fn first_account_becomes_default_sender() {
    let mut store = Store::in_memory().unwrap();
    store.upsert_account(&account("a", "A", false)).unwrap();
    let default = store.default_account().unwrap().unwrap();
    assert_eq!(default.id, "a");
    assert!(default.is_default_sender);
}

#[test]
fn default_mark_cannot_be_removed_from_the_only_default() {
    let mut store = Store::in_memory().unwrap();
    store.upsert_account(&account("a", "A", true)).unwrap();
    store.upsert_account(&account("a", "A2", false)).unwrap();
    let a = store.account("a").unwrap().unwrap();
    assert!(a.is_default_sender);
    assert_eq!(a.display_name, "A2");
}

#[test]
fn non_default_save_keeps_other_default() {
    let mut store = Store::in_memory().unwrap();
    store.upsert_account(&account("a", "A", true)).unwrap();
    store.upsert_account(&account("b", "B", false)).unwrap();
    assert_eq!(store.default_account().unwrap().unwrap().id, "a");
    assert!(!store.account("b").unwrap().unwrap().is_default_sender);
}

#[test]
fn account_list_puts_default_first_then_names() {
    let mut store = Store::in_memory().unwrap();
    store.upsert_account(&account("c", "Charlie", false)).unwrap();
    store.upsert_account(&account("a", "Alpha", false)).unwrap();
    store.upsert_account(&account("b", "Bravo", false)).unwrap();
    let ids: Vec<String> = store.accounts().unwrap().into_iter().map(|a| a.id).collect();
    assert_eq!(ids, vec!["c", "a", "b"]);
}

#[test]
fn missing_account_reads_none() {
    let store = Store::in_memory().unwrap();
    assert!(store.account("nope").unwrap().is_none());
    assert!(store.default_account().unwrap().is_none());
}

#[test]
fn rows_of_unknown_accounts_are_refused() {
    let mut store = Store::in_memory().unwrap();
    let err = store.upsert_folder(&folder("x", "INBOX", "Inbox", Some("inbox"))).unwrap_err();
    assert_eq!(err.message(), "database error: FOREIGN KEY constraint failed");
    assert!(matches!(store.upsert_message_header(&header("x", "INBOX", 1, 0)), Err(AppError::Database(_))));
    assert!(matches!(store.upsert_body(&body("x", 1, vec![])), Err(AppError::Database(_))));
    assert!(store.folder_rows().is_empty());
    assert!(store.header_rows().is_empty());
    assert!(store.body_rows().is_empty());
}

#[test]
fn folder_list_orders_inbox_sent_then_names() {
    let mut store = Store::in_memory().unwrap();
    store.upsert_account(&account("a", "A", true)).unwrap();
    store.upsert_folder(&folder("a", "Zeta", "Zeta", None)).unwrap();
    store.upsert_folder(&folder("a", "Sent", "Sent", Some("sent"))).unwrap();
    store.upsert_folder(&folder("a", "Archive", "Archive", Some("archive"))).unwrap();
    store.upsert_folder(&folder("a", "INBOX", "Inbox", Some("inbox"))).unwrap();
    let names: Vec<String> = store.folders("a").unwrap().into_iter().map(|f| f.display_name).collect();
    assert_eq!(names, vec!["Inbox", "Sent", "Archive", "Zeta"]);
    assert!(store.folders("b").unwrap().is_empty());
}

#[test]
fn folder_save_replaces_by_key() {
    let mut store = Store::in_memory().unwrap();
    store.upsert_account(&account("a", "A", true)).unwrap();
    store.upsert_folder(&folder("a", "INBOX", "Inbox", Some("inbox"))).unwrap();
    let mut updated = folder("a", "INBOX", "Inbox", Some("inbox"));
    updated.last_synced_uid = Some(42);
    store.upsert_folder(&updated).unwrap();
    let folders = store.folders("a").unwrap();
    assert_eq!(folders.len(), 1);
    assert_eq!(folders[0].last_synced_uid, Some(42));
}

#[test]
fn message_list_joins_account_and_filters() {
    let mut store = Store::in_memory().unwrap();
    store.upsert_account(&account("a", "Alpha", true)).unwrap();
    store.upsert_account(&account("b", "Bravo", false)).unwrap();
    store.upsert_message_header(&header("a", "INBOX", 1, 10)).unwrap();
    store.upsert_message_header(&header("a", "Archive", 2, 30)).unwrap();
    store.upsert_message_header(&header("b", "INBOX", 3, 20)).unwrap();

    let inbox = store.unified_inbox(None).unwrap();
    let uids: Vec<i64> = inbox.iter().map(|h| h.uid).collect();
    assert_eq!(uids, vec![3, 1]);
    assert_eq!(inbox[0].account_email, "b@example.com");
    assert_eq!(inbox[0].account_display_name, "Bravo");
    assert_eq!(inbox[0].flags, vec!["\\Seen".to_string()]);

    let all_a: Vec<i64> = store.messages(None, Some("a")).unwrap().iter().map(|h| h.uid).collect();
    assert_eq!(all_a, vec![2, 1]);
    let archive: Vec<i64> = store.messages(Some("Archive"), None).unwrap().iter().map(|h| h.uid).collect();
    assert_eq!(archive, vec![2]);
    assert_eq!(store.messages(None, None).unwrap().len(), 3);
}

#[test]
fn message_list_keeps_the_newest_five_hundred() {
    let mut store = Store::in_memory().unwrap();
    store.upsert_account(&account("a", "A", true)).unwrap();
    for uid in 0..501 {
        store.upsert_message_header(&header("a", "INBOX", uid, uid)).unwrap();
    }
    let inbox = store.unified_inbox(None).unwrap();
    assert_eq!(inbox.len(), 500);
    assert_eq!(inbox[0].uid, 500);
    assert_eq!(inbox[499].uid, 1);
}

#[test]
fn equal_dates_keep_saving_order() {
    let mut store = Store::in_memory().unwrap();
    store.upsert_account(&account("a", "A", true)).unwrap();
    store.upsert_message_header(&header("a", "INBOX", 7, 5)).unwrap();
    store.upsert_message_header(&header("a", "INBOX", 8, 5)).unwrap();
    let uids: Vec<i64> = store.unified_inbox(None).unwrap().iter().map(|h| h.uid).collect();
    assert_eq!(uids, vec![7, 8]);
}

#[test]
fn header_save_replaces_by_key() {
    let mut store = Store::in_memory().unwrap();
    store.upsert_account(&account("a", "A", true)).unwrap();
    store.upsert_message_header(&header("a", "INBOX", 1, 5)).unwrap();
    let mut changed = header("a", "INBOX", 1, 6);
    changed.subject = "Changed".to_string();
    store.upsert_message_header(&changed).unwrap();
    let inbox = store.unified_inbox(Some("a")).unwrap();
    assert_eq!(inbox.len(), 1);
    assert_eq!(inbox[0].subject, "Changed");
}

#[test]
fn cached_body_reads_back_with_attachments_by_name() {
    let mut store = Store::in_memory().unwrap();
    store.upsert_account(&account("a", "A", true)).unwrap();
    assert!(store.cached_body("a", "INBOX", 1).unwrap().is_none());
    let saved = body("a", 1, vec![attachment("a", 1, "zeta.pdf", "1"), attachment("a", 1, "alpha.txt", "2")]);
    store.upsert_body(&saved).unwrap();
    let cached = store.cached_body("a", "INBOX", 1).unwrap().unwrap();
    assert_eq!(cached.text_body.as_deref(), Some("hello"));
    assert_eq!(cached.fetched_at, Timestamp { seconds: 100, nanos: 5 });
    let names: Vec<String> = cached.attachments.into_iter().map(|a| a.filename).collect();
    assert_eq!(names, vec!["alpha.txt", "zeta.pdf"]);
}

#[test]
fn saving_a_body_again_replaces_its_attachments() {
    let mut store = Store::in_memory().unwrap();
    store.upsert_account(&account("a", "A", true)).unwrap();
    store.upsert_body(&body("a", 1, vec![attachment("a", 1, "old.txt", "1"), attachment("a", 1, "older.txt", "2")])).unwrap();
    store.upsert_body(&body("a", 1, vec![attachment("a", 1, "new.txt", "1")])).unwrap();
    let cached = store.cached_body("a", "INBOX", 1).unwrap().unwrap();
    assert_eq!(cached.attachments.len(), 1);
    assert_eq!(cached.attachments[0].filename, "new.txt");
    assert_eq!(store.body_rows().len(), 1);
}

#[test]
fn attachment_of_unknown_account_stops_saving() {
    let mut store = Store::in_memory().unwrap();
    store.upsert_account(&account("a", "A", true)).unwrap();
    let saved = body("a", 1, vec![attachment("a", 1, "one.txt", "1"), attachment("x", 1, "two.txt", "2"), attachment("a", 1, "three.txt", "3")]);
    let err = store.upsert_body(&saved).unwrap_err();
    assert!(matches!(err, AppError::Database(_)));
    let cached = store.cached_body("a", "INBOX", 1).unwrap().unwrap();
    let names: Vec<String> = cached.attachments.into_iter().map(|a| a.filename).collect();
    assert_eq!(names, vec!["one.txt"]);
}

#[test]
fn removing_an_account_removes_what_it_stored() {
    let mut store = Store::in_memory().unwrap();
    store.upsert_account(&account("a", "A", true)).unwrap();
    store.upsert_account(&account("b", "B", false)).unwrap();
    store.upsert_folder(&folder("a", "INBOX", "Inbox", Some("inbox"))).unwrap();
    store.upsert_folder(&folder("b", "INBOX", "Inbox", Some("inbox"))).unwrap();
    store.upsert_message_header(&header("a", "INBOX", 1, 1)).unwrap();
    store.upsert_message_header(&header("b", "INBOX", 2, 2)).unwrap();
    store.upsert_body(&body("a", 1, vec![attachment("a", 1, "f.txt", "1")])).unwrap();

    let removed = store.remove_account("a").unwrap().unwrap();
    assert_eq!(removed.id, "a");
    assert!(store.account("a").unwrap().is_none());
    assert!(store.folders("a").unwrap().is_empty());
    assert_eq!(store.folders("b").unwrap().len(), 1);
    let uids: Vec<i64> = store.unified_inbox(None).unwrap().iter().map(|h| h.uid).collect();
    assert_eq!(uids, vec![2]);
    assert!(store.cached_body("a", "INBOX", 1).unwrap().is_none());
    assert!(store.attachment_rows().is_empty());
    assert!(store.remove_account("a").unwrap().is_none());
    // The default sender was removed; no other account takes the mark.
    assert!(store.default_account().unwrap().is_none());
}

#[test]
fn last_error_is_recorded_and_cleared() {
    let mut store = Store::in_memory().unwrap();
    store.upsert_account(&account("a", "A", true)).unwrap();
    store.upsert_account(&account("b", "B", false)).unwrap();
    store.set_account_error("a", Some("timeout")).unwrap();
    assert_eq!(store.account("a").unwrap().unwrap().last_error.as_deref(), Some("timeout"));
    assert_eq!(store.account("b").unwrap().unwrap().last_error, None);
    store.set_account_error("a", None).unwrap();
    assert_eq!(store.account("a").unwrap().unwrap().last_error, None);
}

#[test]
fn tables_with_duplicate_keys_are_refused() {
    let ok = Store::from_tables(vec![account("a", "A", true), account("b", "B", false)], vec![], vec![], vec![], vec![]);
    assert!(ok.is_some());
    let same_id = Store::from_tables(vec![account("a", "A", false), account("a", "B", false)], vec![], vec![], vec![], vec![]);
    assert!(same_id.is_none());
    let two_defaults = Store::from_tables(vec![account("a", "A", true), account("b", "B", true)], vec![], vec![], vec![], vec![]);
    assert!(two_defaults.is_none());
    let row = BodyRow {
        account_id: "a".to_string(),
        folder_path: "INBOX".to_string(),
        uid: 1,
        text_body: None,
        sanitized_html_body: None,
        fetched_at: Timestamp { seconds: 0, nanos: 0 },
    };
    let bodies = Store::from_tables(vec![account("a", "A", true)], vec![], vec![], vec![row.clone(), row], vec![]);
    assert!(bodies.is_none());
}

#[test]
fn restored_tables_read_as_saved() {
    let store = Store::from_tables(
        vec![account("a", "A", false)],
        vec![folder("a", "INBOX", "Inbox", Some("inbox"))],
        vec![header("a", "INBOX", 1, 9)],
        vec![],
        vec![],
    )
    .unwrap();
    assert!(store.default_account().unwrap().is_none());
    assert_eq!(store.unified_inbox(None).unwrap()[0].account_email, "a@example.com");
    assert_eq!(store.folders("a").unwrap().len(), 1);
}

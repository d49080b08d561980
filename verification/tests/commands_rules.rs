use unified_mail::commands::{
    body_source, folder_source, BodySource, FolderSource, SyncRun,
    account_credentials, add_account, add_account_with_id, cached_folders, check_outgoing_subject,
    connection_test_account, credential_key_for, greatest_uid, record_sync, remove_account,
    require_account, save_folders, syncable_accounts, update_account, validate_account_input,
};
use unified_mail::credentials::{CredentialStore, MemoryCredentialStore};
use unified_mail::error::{AppError, AppResult, ErrorPayload};
use unified_mail::models::{
    Account, AccountInput, Folder, MessageHeader, SocketSecurity, Timestamp,
};
use unified_mail::store::Store;

fn input(name: &str, email: &str) -> AccountInput {
    AccountInput {
        display_name: name.to_string(),
        email: email.to_string(),
        imap_host: "imap.example.com".to_string(),
        imap_port: 993,
        imap_security: SocketSecurity::Tls,
        smtp_host: "smtp.example.com".to_string(),
        smtp_port: 465,
        smtp_security: SocketSecurity::StartTls,
        username: email.to_string(),
        password: Some("pw".to_string()),
        is_default_sender: false,
        sync_enabled: true,
    }
}

fn account(id: &str, name: &str, sync: bool) -> Account {
    Account {
        id: id.to_string(),
        display_name: name.to_string(),
        email: format!("{id}@example.com"),
        imap_host: "imap.example.com".to_string(),
        imap_port: 993,
        imap_security: SocketSecurity::Tls,
        smtp_host: "smtp.example.com".to_string(),
        smtp_port: 465,
        smtp_security: SocketSecurity::Tls,
        username: format!("{id}@example.com"),
        credential_key: format!("account:{id}"),
        is_default_sender: false,
        sync_enabled: sync,
        last_error: None,
    }
}

fn header(account_id: &str, uid: i64, seconds: i64) -> MessageHeader {
    MessageHeader {
        account_id: account_id.to_string(),
        account_email: format!("{account_id}@example.com"),
        account_display_name: account_id.to_string(),
        folder_path: "INBOX".to_string(),
        uid,
        message_id: None,
        subject: format!("Subject {uid}"),
        from: "sender@example.com".to_string(),
        to: "me@example.com".to_string(),
        cc: None,
        date: Timestamp { seconds, nanos: 0 },
        flags: vec![],
        has_attachments: false,
        snippet: None,
    }
}

fn folder(account_id: &str, path: &str) -> Folder {
    Folder {
        account_id: account_id.to_string(),
        path: path.to_string(),
        display_name: path.to_string(),
        role: None,
        uid_validity: None,
        last_synced_uid: None,
    }
}

fn validation_text(r: AppResult<()>) -> String {
    match r {
        Err(AppError::Validation(m)) => m,
        other => panic!("expected a validation error, got {other:?}"),
    }
}

/// A credential store whose every operation fails.
struct BrokenCredentials;

impl CredentialStore for BrokenCredentials {
    fn set_password(&mut self, _key: &str, _password: &str) -> AppResult<()> {
        Err(AppError::Credential("locked".to_string()))
    }

    fn get_password(&self, _key: &str) -> AppResult<String> {
        Err(AppError::Credential("locked".to_string()))
    }

    fn delete_password(&mut self, _key: &str) -> AppResult<()> {
        Err(AppError::Credential("locked".to_string()))
    }
}

#[test]
fn valid_input_passes_both_checks() {
    assert!(validate_account_input(&input("Me", "me@example.com"), true).is_ok());
    let mut no_password = input("Me", "me@example.com");
    no_password.password = None;
    assert!(validate_account_input(&no_password, false).is_ok());
}

#[test]
fn each_input_problem_has_its_message() {
    let mut i = input("  ", "me@example.com");
    assert_eq!(validation_text(validate_account_input(&i, true)), "display name is required");

    i = input("Me", "me.example.com");
    assert_eq!(validation_text(validate_account_input(&i, true)), "valid email is required");
    i = input("Me", " \t ");
    assert_eq!(validation_text(validate_account_input(&i, true)), "valid email is required");

    i = input("Me", "me@example.com");
    i.username = "   ".to_string();
    assert_eq!(validation_text(validate_account_input(&i, true)), "username is required");

    i = input("Me", "me@example.com");
    i.smtp_host = "".to_string();
    assert_eq!(validation_text(validate_account_input(&i, true)), "IMAP and SMTP hosts are required");

    i = input("Me", "me@example.com");
    i.imap_port = 0;
    assert_eq!(validation_text(validate_account_input(&i, true)), "IMAP and SMTP ports are required");

    i = input("Me", "me@example.com");
    i.password = Some(String::new());
    assert_eq!(validation_text(validate_account_input(&i, true)), "password is required");
    assert!(validate_account_input(&i, false).is_ok());
}

#[test]
fn first_problem_in_order_is_reported() {
    let mut i = input(" ", "no-at-sign");
    i.imap_port = 0;
    assert_eq!(validation_text(validate_account_input(&i, true)), "display name is required");
}

#[test]
fn credential_key_names_the_account() {
    assert_eq!(credential_key_for("abc"), "account:abc");
}

#[test]
fn adding_an_account_trims_and_stores_the_password() {
    let mut store = Store::in_memory().unwrap();
    let mut creds = MemoryCredentialStore::new();
    let mut i = input("  Me  ", " me@example.com ");
    i.imap_host = " imap.example.com\n".to_string();
    let a = add_account_with_id(&mut store, &mut creds, &i, "id-1".to_string()).unwrap();
    assert_eq!(a.id, "id-1");
    assert_eq!(a.display_name, "Me");
    assert_eq!(a.email, "me@example.com");
    assert_eq!(a.imap_host, "imap.example.com");
    assert_eq!(a.credential_key, "account:id-1");
    assert_eq!(a.smtp_security, SocketSecurity::StartTls);
    assert!(a.last_error.is_none());
    // The only account becomes the default sender.
    assert!(a.is_default_sender);
    assert_eq!(creds.get_password("account:id-1").unwrap(), "pw");
    assert_eq!(store.account("id-1").unwrap().unwrap().display_name, "Me");
}

#[test]
fn adding_with_a_random_id_reads_back() {
    let mut store = Store::in_memory().unwrap();
    let mut creds = MemoryCredentialStore::new();
    let a = add_account(&mut store, &mut creds, &input("Me", "me@example.com")).unwrap();
    assert!(!a.id.is_empty());
    assert_eq!(a.credential_key, format!("account:{}", a.id));
    assert_eq!(store.accounts().unwrap().len(), 1);
    assert_eq!(creds.get_password(&a.credential_key).unwrap(), "pw");
}

#[test]
fn invalid_or_refused_additions_leave_the_cache_alone() {
    let mut store = Store::in_memory().unwrap();
    let mut creds = MemoryCredentialStore::new();
    let mut i = input("Me", "me@example.com");
    i.password = None;
    match add_account_with_id(&mut store, &mut creds, &i, "x".to_string()) {
        Err(AppError::Validation(m)) => assert_eq!(m, "password is required"),
        other => panic!("unexpected {other:?}"),
    }
    let mut broken = BrokenCredentials;
    match add_account_with_id(&mut store, &mut broken, &input("Me", "me@example.com"), "x".to_string()) {
        Err(AppError::Credential(m)) => assert_eq!(m, "locked"),
        other => panic!("unexpected {other:?}"),
    }
    assert!(store.accounts().unwrap().is_empty());
}

#[test]
fn updating_keeps_id_and_key_and_replaces_the_password() {
    let mut store = Store::in_memory().unwrap();
    let mut creds = MemoryCredentialStore::new();
    add_account_with_id(&mut store, &mut creds, &input("Me", "me@example.com"), "id-1".to_string()).unwrap();

    let mut change = input(" Work ", "work@example.com");
    change.password = Some("new".to_string());
    change.sync_enabled = false;
    let a = update_account(&mut store, &mut creds, "id-1", &change).unwrap();
    assert_eq!(a.id, "id-1");
    assert_eq!(a.display_name, "Work");
    assert_eq!(a.credential_key, "account:id-1");
    assert!(!a.sync_enabled);
    assert_eq!(creds.get_password("account:id-1").unwrap(), "new");

    // An empty password leaves the stored one.
    change.password = Some(String::new());
    update_account(&mut store, &mut creds, "id-1", &change).unwrap();
    assert_eq!(creds.get_password("account:id-1").unwrap(), "new");
}

#[test]
fn updating_an_unknown_account_is_refused() {
    let mut store = Store::in_memory().unwrap();
    let mut creds = MemoryCredentialStore::new();
    match update_account(&mut store, &mut creds, "nope", &input("Me", "me@example.com")) {
        Err(AppError::Validation(m)) => assert_eq!(m, "account not found"),
        other => panic!("unexpected {other:?}"),
    }
}

#[test]
fn removing_forgets_the_account_and_its_password() {
    let mut store = Store::in_memory().unwrap();
    let mut creds = MemoryCredentialStore::new();
    add_account_with_id(&mut store, &mut creds, &input("Me", "me@example.com"), "id-1".to_string()).unwrap();
    remove_account(&mut store, &mut creds, "id-1").unwrap();
    assert!(store.account("id-1").unwrap().is_none());
    assert!(creds.get_password("account:id-1").is_err());
    // Removing an unknown account, or with a failing credential store, succeeds.
    remove_account(&mut store, &mut creds, "id-1").unwrap();
    add_account_with_id(&mut store, &mut creds, &input("Me", "me@example.com"), "id-2".to_string()).unwrap();
    let mut broken = BrokenCredentials;
    remove_account(&mut store, &mut broken, "id-2").unwrap();
    assert!(store.accounts().unwrap().is_empty());
}

#[test]
fn connection_test_account_keeps_text_as_given() {
    let (a, pw) = connection_test_account(&input(" Me ", "me@example.com")).unwrap();
    assert_eq!(a.id, "connection-test");
    assert_eq!(a.credential_key, "connection-test");
    assert_eq!(a.display_name, " Me ");
    assert_eq!(pw, "pw");
    let mut i = input("Me", "me@example.com");
    i.password = None;
    assert!(matches!(connection_test_account(&i), Err(AppError::Validation(_))));
}

#[test]
fn required_account_is_found_or_refused() {
    let mut store = Store::in_memory().unwrap();
    store.upsert_account(&account("a", "A", true)).unwrap();
    assert_eq!(require_account(&store, "a").unwrap().id, "a");
    match require_account(&store, "b") {
        Err(AppError::Validation(m)) => assert_eq!(m, "account not found"),
        other => panic!("unexpected {other:?}"),
    }
}

#[test]
fn account_credentials_read_the_password() {
    let mut store = Store::in_memory().unwrap();
    store.upsert_account(&account("a", "A", true)).unwrap();
    let mut creds = MemoryCredentialStore::new();
    creds.set_password("account:a", "secret").unwrap();
    let (a, pw) = account_credentials(&store, &creds, "a").unwrap();
    assert_eq!(a.id, "a");
    assert_eq!(pw, "secret");
    assert!(matches!(account_credentials(&store, &BrokenCredentials, "a"), Err(AppError::Credential(_))));
    assert!(matches!(account_credentials(&store, &creds, "zz"), Err(AppError::Validation(_))));
}

#[test]
fn blank_subject_is_refused() {
    assert_eq!(validation_text(check_outgoing_subject(" \n")), "subject is required");
    assert!(check_outgoing_subject(" Hi ").is_ok());
}

#[test]
fn cached_folders_are_none_until_saved() {
    let mut store = Store::in_memory().unwrap();
    store.upsert_account(&account("a", "A", true)).unwrap();
    assert!(cached_folders(&store, "a").unwrap().is_none());
    save_folders(&mut store, &vec![folder("a", "Work"), folder("a", "Archive")]).unwrap();
    let cached = cached_folders(&store, "a").unwrap().unwrap();
    let names: Vec<&str> = cached.iter().map(|f| f.path.as_str()).collect();
    assert_eq!(names, vec!["Archive", "Work"]);
}

#[test]
fn saving_folders_stops_at_an_unknown_account() {
    let mut store = Store::in_memory().unwrap();
    store.upsert_account(&account("a", "A", true)).unwrap();
    let r = save_folders(&mut store, &vec![folder("a", "One"), folder("zz", "Two"), folder("a", "Three")]);
    match r {
        Err(AppError::Database(m)) => assert_eq!(m, "FOREIGN KEY constraint failed"),
        other => panic!("unexpected {other:?}"),
    }
    let cached = cached_folders(&store, "a").unwrap().unwrap();
    assert_eq!(cached.len(), 1);
    assert_eq!(cached[0].path, "One");
}

#[test]
fn only_enabled_accounts_are_synchronised() {
    let mut store = Store::in_memory().unwrap();
    store.upsert_account(&account("a", "Zed", true)).unwrap();
    store.upsert_account(&account("b", "Bee", false)).unwrap();
    store.upsert_account(&account("c", "Cee", true)).unwrap();
    let ids: Vec<String> = syncable_accounts(&store).unwrap().into_iter().map(|a| a.id).collect();
    // "a" is the default sender and comes first; then by name.
    assert_eq!(ids, vec!["a".to_string(), "c".to_string()]);
}

#[test]
fn greatest_uid_of_headers() {
    assert_eq!(greatest_uid(&vec![]), None);
    assert_eq!(greatest_uid(&vec![header("a", 7, 1), header("a", 42, 2), header("a", 3, 3)]), Some(42));
}

#[test]
fn successful_sync_is_recorded() {
    let mut store = Store::in_memory().unwrap();
    let mut a = account("a", "A", true);
    a.last_error = Some("old failure".to_string());
    store.upsert_account(&a).unwrap();
    let report = record_sync(&mut store, &a, Ok(vec![header("a", 5, 10), header("a", 9, 20)])).unwrap();
    assert_eq!(report.account_id, "a");
    assert_eq!(report.synced, 2);
    assert!(report.error.is_none());
    assert!(store.account("a").unwrap().unwrap().last_error.is_none());
    let folders = store.folders("a").unwrap();
    assert_eq!(folders.len(), 1);
    assert_eq!(folders[0].path, "INBOX");
    assert_eq!(folders[0].display_name, "Inbox");
    assert_eq!(folders[0].role.as_deref(), Some("inbox"));
    assert_eq!(folders[0].last_synced_uid, Some(9));
    let inbox = store.unified_inbox(Some("a")).unwrap();
    assert_eq!(inbox.iter().map(|h| h.uid).collect::<Vec<_>>(), vec![9, 5]);
}

#[test]
fn failed_sync_records_the_error() {
    let mut store = Store::in_memory().unwrap();
    let a = account("a", "A", true);
    store.upsert_account(&a).unwrap();
    let report = record_sync(&mut store, &a, Err(AppError::Mail("timeout".to_string()))).unwrap();
    assert_eq!(report.synced, 0);
    assert_eq!(report.error.as_deref(), Some("mail transport error: timeout"));
    assert_eq!(
        store.account("a").unwrap().unwrap().last_error.as_deref(),
        Some("mail transport error: timeout")
    );
    assert!(store.folders("a").unwrap().is_empty());
}

#[test]
fn sync_of_an_unknown_account_fails_on_storage() {
    let mut store = Store::in_memory().unwrap();
    let a = account("a", "A", true);
    match record_sync(&mut store, &a, Ok(vec![header("a", 1, 1)])) {
        Err(AppError::Database(m)) => assert_eq!(m, "FOREIGN KEY constraint failed"),
        other => panic!("unexpected {other:?}"),
    }
}

#[test]
fn error_messages_and_payloads() {
    assert_eq!(AppError::Validation("bad".to_string()).message(), "bad");
    assert_eq!(AppError::Database("x".to_string()).message(), "database error: x");
    assert_eq!(AppError::Credential("x".to_string()).message(), "credential store error: x");
    assert_eq!(AppError::Mail("x".to_string()).message(), "mail transport error: x");
    assert_eq!(AppError::Io("x".to_string()).message(), "io error: x");
    assert_eq!(AppError::Other("x".to_string()).message(), "x");
    let p = ErrorPayload::from_error(&AppError::Io("disk".to_string()));
    assert_eq!(p.message, "io error: disk");
}

#[test]
fn random_ids_have_the_uuid_v4_form() {
    let mut store = Store::in_memory().unwrap();
    let mut creds = MemoryCredentialStore::new();
    let a = add_account(&mut store, &mut creds, &input("Me", "me@example.com")).unwrap();
    let chars: Vec<char> = a.id.chars().collect();
    assert_eq!(chars.len(), 36);
    for i in [8, 13, 18, 23] {
        assert_eq!(chars[i], '-');
    }
    assert_eq!(chars[14], '4');
    assert!(matches!(chars[19], '8' | '9' | 'a' | 'b'));
}

#[test]
fn invalid_input_touches_no_password() {
    let mut store = Store::in_memory().unwrap();
    let mut creds = MemoryCredentialStore::new();
    let mut i = input(" ", "me@example.com");
    i.password = Some("pw".to_string());
    assert!(add_account_with_id(&mut store, &mut creds, &i, "id-1".to_string()).is_err());
    assert!(creds.get_password("account:id-1").is_err());
}

#[test]
fn folders_come_from_the_cache_or_the_server() {
    let mut store = Store::in_memory().unwrap();
    let mut creds = MemoryCredentialStore::new();
    store.upsert_account(&account("a", "A", true)).unwrap();
    creds.set_password("account:a", "secret").unwrap();
    match folder_source(&store, &creds, "a").unwrap() {
        FolderSource::Server(acc, pw) => {
            assert_eq!(acc.id, "a");
            assert_eq!(pw, "secret");
        },
        FolderSource::Cached(_) => panic!("nothing is cached yet"),
    }
    save_folders(&mut store, &vec![folder("a", "Work")]).unwrap();
    match folder_source(&store, &creds, "a").unwrap() {
        FolderSource::Cached(v) => assert_eq!(v[0].path, "Work"),
        FolderSource::Server(..) => panic!("the folders are cached"),
    }
    assert!(matches!(folder_source(&store, &creds, "zz"), Err(AppError::Validation(_))));
}

#[test]
fn bodies_come_from_the_cache_or_the_server() {
    let mut store = Store::in_memory().unwrap();
    let mut creds = MemoryCredentialStore::new();
    store.upsert_account(&account("a", "A", true)).unwrap();
    assert!(matches!(body_source(&store, &creds, "a", "INBOX", 1), Err(AppError::Credential(_))));
    creds.set_password("account:a", "secret").unwrap();
    assert!(matches!(body_source(&store, &creds, "a", "INBOX", 1), Ok(BodySource::Server(..))));
    store
        .upsert_body(&unified_mail::models::MessageBody {
            account_id: "a".to_string(),
            folder_path: "INBOX".to_string(),
            uid: 1,
            text_body: Some("hi".to_string()),
            sanitized_html_body: None,
            fetched_at: Timestamp { seconds: 1, nanos: 0 },
            attachments: vec![],
        })
        .unwrap();
    match body_source(&store, &creds, "a", "INBOX", 1).unwrap() {
        BodySource::Cached(b) => assert_eq!(b.text_body.as_deref(), Some("hi")),
        BodySource::Server(..) => panic!("the body is cached"),
    }
}

#[test]
fn a_sync_run_takes_enabled_accounts_and_stops_at_an_error() {
    let mut store = Store::in_memory().unwrap();
    store.upsert_account(&account("a", "Zed", true)).unwrap();
    store.upsert_account(&account("b", "Bee", false)).unwrap();
    store.upsert_account(&account("c", "Cee", true)).unwrap();
    let mut run = SyncRun::start(&store).unwrap();
    let first = run.next_account().unwrap();
    assert_eq!(first.id, "a");
    let rep = record_sync(&mut store, &first, Ok(vec![])).unwrap();
    let (next, failure) = run.record(Ok(rep));
    run = next;
    assert!(failure.is_none());
    let second = run.next_account().unwrap();
    assert_eq!(second.id, "c");
    let (next, err) = run.record(Err(AppError::Credential("locked".to_string())));
    run = next;
    assert!(matches!(err, Some(AppError::Credential(_))));
    assert_eq!(run.next_account().unwrap().id, "c");
    let reports = run.finish();
    assert_eq!(reports.len(), 1);
    assert_eq!(reports[0].account_id, "a");
}

#[test]
fn unified_inbox_leaves_out_disabled_accounts() {
    let mut store = Store::in_memory().unwrap();
    store.upsert_account(&account("a", "A", true)).unwrap();
    store.upsert_account(&account("b", "B", false)).unwrap();
    store.upsert_message_header(&header("a", 1, 10)).unwrap();
    store.upsert_message_header(&header("b", 2, 20)).unwrap();
    let inbox = store.unified_inbox(None).unwrap();
    assert_eq!(inbox.len(), 1);
    assert_eq!(inbox[0].account_id, "a");
    assert!(store.unified_inbox(Some("b")).unwrap().is_empty());
    // The account's own message list still shows them.
    assert_eq!(store.messages(Some("INBOX"), Some("b")).unwrap().len(), 1);
}

#[test]
fn saved_account_is_default_only_when_marked_or_alone() {
    let mut store = Store::in_memory().unwrap();
    store.upsert_account(&account("a", "A", true)).unwrap();
    assert!(store.account("a").unwrap().unwrap().is_default_sender);
    store.upsert_account(&account("b", "B", true)).unwrap();
    assert!(!store.account("b").unwrap().unwrap().is_default_sender);
    // Saving the default account unmarked, while no other is the default,
    // keeps it the default.
    store.upsert_account(&account("a", "A2", true)).unwrap();
    assert!(store.account("a").unwrap().unwrap().is_default_sender);
    assert!(store.account("zz").unwrap().is_none());
    let defaults = store.accounts().unwrap().iter().filter(|a| a.is_default_sender).count();
    assert_eq!(defaults, 1);
}

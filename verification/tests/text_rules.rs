use unified_mail::credentials::{CredentialStore, MemoryCredentialStore};
use unified_mail::models::{SocketSecurity, Timestamp};
use unified_mail::text::{
    after_last, ascii_lower_eq, contains_char, decimal, is_blank, str_eq, str_less, trim,
};

#[test]
fn trim_removes_unicode_white_space_at_both_ends() {
    assert_eq!(trim("  a b \t\n"), "a b");
    assert_eq!(trim("\u{a0}x\u{3000}"), "x");
    assert_eq!(trim("   "), "");
    assert_eq!(trim(""), "");
    assert!(is_blank(" \r\n\t"));
    assert!(is_blank(""));
    assert!(!is_blank(" . "));
}

#[test]
fn character_and_string_comparisons() {
    assert!(contains_char("me@example.com", '@'));
    assert!(!contains_char("me.example.com", '@'));
    assert!(str_eq("abc", "abc"));
    assert!(!str_eq("abc", "abd"));
    assert!(str_less("Account a", "Account b"));
    assert!(str_less("Ab", "Abc"));
    assert!(!str_less("b", "a"));
    assert!(!str_less("same", "same"));
    assert!(str_less("Z", "a"));
}

#[test]
fn last_segment_and_case_folding() {
    assert_eq!(after_last("a/b/c", '/'), "c");
    assert_eq!(after_last("abc", '/'), "abc");
    assert_eq!(after_last("", '/'), "");
    assert!(ascii_lower_eq("InBoX", "inbox"));
    assert!(!ascii_lower_eq("Inboxes", "inbox"));
    assert!(!ascii_lower_eq("İnbox", "inbox"));
}

#[test]
fn decimal_renders_numbers() {
    assert_eq!(decimal(0), "0");
    assert_eq!(decimal(7), "7");
    assert_eq!(decimal(10), "10");
    assert_eq!(decimal(1234567), "1234567");
}

#[test]
fn security_modes_round_trip_through_their_names() {
    for s in [SocketSecurity::Tls, SocketSecurity::StartTls, SocketSecurity::Plain] {
        assert_eq!(SocketSecurity::from_db(s.as_str()), s);
    }
    assert_eq!(SocketSecurity::StartTls.as_str(), "startTls");
    assert_eq!(SocketSecurity::from_db("STARTTLS"), SocketSecurity::Tls);
    assert_eq!(SocketSecurity::from_db(""), SocketSecurity::Tls);
}

#[test]
fn timestamps_order_by_seconds_then_nanos() {
    let a = Timestamp { seconds: 10, nanos: 5 };
    let b = Timestamp { seconds: 10, nanos: 4 };
    let c = Timestamp { seconds: 9, nanos: 999 };
    assert!(a.is_later_than(&b));
    assert!(b.is_later_than(&c));
    assert!(!a.is_later_than(&a));
    assert!(!c.is_later_than(&a));
}

#[test]
fn memory_store_replaces_and_deletes_by_key() {
    let mut store = MemoryCredentialStore::new();
    store.set_password("k1", "one").unwrap();
    store.set_password("k2", "two").unwrap();
    store.set_password("k1", "uno").unwrap();
    assert_eq!(store.get_password("k1").unwrap(), "uno");
    assert_eq!(store.get_password("k2").unwrap(), "two");
    store.delete_password("k1").unwrap();
    assert!(store.get_password("k1").is_err());
    assert_eq!(store.get_password("k2").unwrap(), "two");
    // Deleting a missing key succeeds.
    store.delete_password("k1").unwrap();
}

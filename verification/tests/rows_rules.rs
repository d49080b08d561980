use unified_mail::models::Timestamp;
use unified_mail::rows::{header_from_row, stored_flags, stored_time, HeaderRow};

fn row(date: &str, flags: &str, attachments: i64) -> HeaderRow {
    HeaderRow {
        account_id: "a".to_string(),
        folder_path: "INBOX".to_string(),
        uid: 3,
        message_id: Some("m@x".to_string()),
        subject: "Hi".to_string(),
        sender: "s@example.com".to_string(),
        recipients: "me@example.com".to_string(),
        cc: None,
        date_text: date.to_string(),
        flags_json: flags.to_string(),
        has_attachments: attachments,
        snippet: None,
    }
}

#[test]
fn stored_times_are_read_or_replaced_by_now() {
    let now = Timestamp { seconds: 7, nanos: 8 };
    assert_eq!(stored_time("2026-05-14T08:00:00Z", now), Timestamp { seconds: 1778745600, nanos: 0 });
    assert_eq!(stored_time("2026-05-14T10:00:00.5+02:00", now), Timestamp { seconds: 1778745600, nanos: 500_000_000 });
    assert_eq!(stored_time("yesterday", now), now);
}

#[test]
fn stored_flags_are_read_or_empty() {
    assert_eq!(stored_flags("[\"\\\\Seen\",\"\\\\Flagged\"]"), vec!["\\Seen".to_string(), "\\Flagged".to_string()]);
    assert!(stored_flags("not json").is_empty());
    assert!(stored_flags("[1, 2]").is_empty());
}

#[test]
fn header_rows_become_headers() {
    let now = Timestamp { seconds: 7, nanos: 8 };
    let h = header_from_row(row("2026-05-14T08:00:00Z", "[\"\\\\Seen\"]", 1), now);
    assert_eq!(h.account_id, "a");
    assert_eq!(h.account_email, "");
    assert_eq!(h.uid, 3);
    assert_eq!(h.from, "s@example.com");
    assert_eq!(h.to, "me@example.com");
    assert_eq!(h.date.seconds, 1778745600);
    assert_eq!(h.flags, vec!["\\Seen".to_string()]);
    assert!(h.has_attachments);
    let h = header_from_row(row("bad", "bad", 0), now);
    assert_eq!(h.date, now);
    assert!(h.flags.is_empty());
    assert!(!h.has_attachments);
}

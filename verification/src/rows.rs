//! Reading the rows of the database file back into records: times kept as
//! RFC 3339 text and flags kept as a JSON list of strings.
use vstd::prelude::*;

use crate::models::{MessageHeader, Timestamp};

verus! {

/// The seconds since the epoch and the nanoseconds of the time that
/// `chrono::DateTime::parse_from_rfc3339` reads from `text`, or `None` when
/// it refuses the text.
pub uninterp spec fn rfc3339_of(text: Seq<char>) -> Option<(i64, u32)>;

/// The list that `serde_json::from_str::<Vec<String>>` reads from `text`, or
/// `None` when it refuses the text.
pub uninterp spec fn json_strings_of(text: Seq<char>) -> Option<Seq<Seq<char>>>;

/// Reads `text` with `chrono::DateTime::parse_from_rfc3339`; the time is
/// taken by `timestamp` and `timestamp_subsec_nanos`.
#[verifier::external_body]
fn rfc3339_time(text: &str) -> (r: Option<(i64, u32)>)
    ensures
        r == rfc3339_of(text@),
{
    chrono::DateTime::parse_from_rfc3339(text).ok().map(|d| (d.timestamp(), d.timestamp_subsec_nanos()))
}

/// The views of the strings in `v`.
pub open spec fn string_views(v: Seq<String>) -> Seq<Seq<char>> {
    v.map_values(|s: String| s@)
}

/// Reads `text` with `serde_json::from_str::<Vec<String>>`.
#[verifier::external_body]
fn json_strings(text: &str) -> (r: Option<Vec<String>>)
    ensures
        match r {
            Some(v) => json_strings_of(text@) == Some(string_views(v@)),
            None => json_strings_of(text@) is None,
        },
{
    serde_json::from_str::<Vec<String>>(text).ok()
}

/// The time that a stored text stands for: the RFC 3339 time it holds, or
/// `now` when it holds none.
pub open spec fn stored_time_of(text: Seq<char>, now: Timestamp) -> Timestamp {
    match rfc3339_of(text) {
        Some((s, n)) => Timestamp { seconds: s, nanos: n },
        None => now,
    }
}

/// The time that the stored text `text` stands for; `now` when it is not an
/// RFC 3339 time.
pub fn stored_time(text: &str, now: Timestamp) -> (t: Timestamp)
    ensures
        t == stored_time_of(text@, now),
{
    match rfc3339_time(text) {
        Some((seconds, nanos)) => Timestamp { seconds, nanos },
        None => now,
    }
}

/// The flags that a stored JSON text stands for: its list of strings, or no
/// flags when it holds none.
pub open spec fn stored_flags_of(text: Seq<char>) -> Seq<Seq<char>> {
    match json_strings_of(text) {
        Some(v) => v,
        None => Seq::empty(),
    }
}

/// The flags that the stored JSON text `text` stands for; none when it is
/// not a JSON list of strings.
pub fn stored_flags(text: &str) -> (r: Vec<String>)
    ensures
        string_views(r@) == stored_flags_of(text@),
{
    match json_strings(text) {
        Some(v) => v,
        None => {
            let v: Vec<String> = Vec::new();
            assert(string_views(v@) =~= Seq::<Seq<char>>::empty());
            v
        },
    }
}

/// A message header row as the database file stores it: the date as text,
/// the flags as a JSON list, and the attachment mark as an integer.
pub struct HeaderRow {
    pub account_id: String,
    pub folder_path: String,
    pub uid: i64,
    pub message_id: Option<String>,
    pub subject: String,
    pub sender: String,
    pub recipients: String,
    pub cc: Option<String>,
    pub date_text: String,
    pub flags_json: String,
    pub has_attachments: i64,
    pub snippet: Option<String>,
}

/// The header that a stored row stands for, its account's address and name
/// left empty (the cache fills them in when it lists messages): the date
/// read from its text (`now` where it is not a time), the flags from their
/// JSON text (none where it is not a list), and the attachment mark set
/// where the stored integer is 1.
pub fn header_from_row(row: HeaderRow, now: Timestamp) -> (h: MessageHeader)
    ensures
        h.account_id == row.account_id,
        h.account_email@.len() == 0,
        h.account_display_name@.len() == 0,
        h.folder_path == row.folder_path,
        h.uid == row.uid,
        h.message_id == row.message_id,
        h.subject == row.subject,
        h.from == row.sender,
        h.to == row.recipients,
        h.cc == row.cc,
        h.date == stored_time_of(row.date_text@, now),
        string_views(h.flags@) == stored_flags_of(row.flags_json@),
        h.has_attachments == (row.has_attachments == 1),
        h.snippet == row.snippet,
{
    let date = stored_time(row.date_text.as_str(), now);
    let flags = stored_flags(row.flags_json.as_str());
    MessageHeader {
        account_id: row.account_id,
        account_email: String::new(),
        account_display_name: String::new(),
        folder_path: row.folder_path,
        uid: row.uid,
        message_id: row.message_id,
        subject: row.subject,
        from: row.sender,
        to: row.recipients,
        cc: row.cc,
        date,
        flags,
        has_attachments: row.has_attachments == 1,
        snippet: row.snippet,
    }
}

} // verus!

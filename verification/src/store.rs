//! The local cache of accounts, folders, message headers, bodies and
//! attachment metadata: five tables with the keys, the constraints and the
//! query orders of the client's database, held in memory.
use vstd::prelude::*;

use crate::error::{AppError, AppResult, is_database, is_validation};
use crate::models::{
    opt_str_view,
    Account, AccountInput, AttachmentMeta, BodyView, Folder, HeaderView, MessageBody,
    MessageHeader, Timestamp, later_than,
};
use crate::text::{seq_less, str_eq, str_less, trim, trim_seq};
use crate::seqs::{
    first_index, insert_by, lemma_first_index, lemma_first_index_at, lemma_first_index_none,
    lemma_filter_unique, lemma_insert_by_at, lemma_limit_sorted, lemma_sort_by_elements,
    lemma_sort_by_sorted, lemma_upsert_read, sorted_by, strict_weak_order, lemma_upsert_unique, limit, sort_by, unique_by, upsert,
};

verus! {

/// One row of the message body table: a body without its attachments, which
/// live in a table of their own.
#[derive(Debug)]
pub struct BodyRow {
    pub account_id: String,
    pub folder_path: String,
    pub uid: i64,
    pub text_body: Option<String>,
    pub sanitized_html_body: Option<String>,
    pub fetched_at: Timestamp,
}

impl Clone for BodyRow {
    fn clone(&self) -> (r: Self)
        ensures
            r == *self,
    {
        BodyRow {
            account_id: self.account_id.clone(),
            folder_path: self.folder_path.clone(),
            uid: self.uid,
            text_body: self.text_body.clone(),
            sanitized_html_body: self.sanitized_html_body.clone(),
            fetched_at: self.fetched_at,
        }
    }
}

/// The content of the five tables, in row order.
pub struct StoreView {
    pub accounts: Seq<Account>,
    pub folders: Seq<Folder>,
    pub headers: Seq<HeaderView>,
    pub bodies: Seq<BodyRow>,
    pub attachments: Seq<AttachmentMeta>,
}

/// The local cache.
pub struct Store {
    accounts: Vec<Account>,
    folders: Vec<Folder>,
    headers: Vec<MessageHeader>,
    bodies: Vec<BodyRow>,
    attachments: Vec<AttachmentMeta>,
}

/// The view of each header in `hs`.
pub open spec fn header_views(hs: Seq<MessageHeader>) -> Seq<HeaderView> {
    hs.map_values(|h: MessageHeader| h@)
}

impl View for Store {
    type V = StoreView;

    closed spec fn view(&self) -> StoreView {
        StoreView {
            accounts: self.accounts@,
            folders: self.folders@,
            headers: header_views(self.headers@),
            bodies: self.bodies@,
            attachments: self.attachments@,
        }
    }
}

// ---------------------------------------------------------------------------
// Keys and constraints

/// Matches the account whose id is `id`.
pub open spec fn account_has_id(id: Seq<char>) -> spec_fn(Account) -> bool {
    |a: Account| a.id@ == id
}

/// Matches the default sending account.
pub open spec fn account_is_default() -> spec_fn(Account) -> bool {
    |a: Account| a.is_default_sender
}

/// Matches the folder row with the key (`account_id`, `path`).
pub open spec fn folder_has_key(account_id: Seq<char>, path: Seq<char>) -> spec_fn(Folder) -> bool {
    |f: Folder| f.account_id@ == account_id && f.path@ == path
}

/// Matches the header row with the key (`account_id`, `folder_path`, `uid`).
pub open spec fn header_has_key(account_id: Seq<char>, folder_path: Seq<char>, uid: i64) -> spec_fn(
    HeaderView,
) -> bool {
    |h: HeaderView| h.account_id@ == account_id && h.folder_path@ == folder_path && h.uid == uid
}

/// Matches the body row with the key (`account_id`, `folder_path`, `uid`).
pub open spec fn body_has_key(account_id: Seq<char>, folder_path: Seq<char>, uid: i64) -> spec_fn(
    BodyRow,
) -> bool {
    |b: BodyRow| b.account_id@ == account_id && b.folder_path@ == folder_path && b.uid == uid
}

/// Matches the attachments of the message (`account_id`, `folder_path`, `uid`).
pub open spec fn attachment_of(account_id: Seq<char>, folder_path: Seq<char>, uid: i64) -> spec_fn(
    AttachmentMeta,
) -> bool {
    |a: AttachmentMeta| a.account_id@ == account_id && a.folder_path@ == folder_path && a.uid == uid
}

/// Matches the attachment row with the key of `x`.
pub open spec fn attachment_same_key(x: AttachmentMeta) -> spec_fn(AttachmentMeta) -> bool {
    |a: AttachmentMeta|
        a.account_id@ == x.account_id@ && a.folder_path@ == x.folder_path@ && a.uid == x.uid
            && a.part_id@ == x.part_id@
}

/// The account whose id is `id`, if there is one.
pub open spec fn find_account(accounts: Seq<Account>, id: Seq<char>) -> Option<Account> {
    let i = first_index(accounts, account_has_id(id));
    if i >= 0 {
        Some(accounts[i])
    } else {
        None
    }
}

/// Whether an account with the id `id` exists.
pub open spec fn has_account(accounts: Seq<Account>, id: Seq<char>) -> bool {
    first_index(accounts, account_has_id(id)) >= 0
}

/// The default sending account, if there is one.
pub open spec fn find_default(accounts: Seq<Account>) -> Option<Account> {
    let i = first_index(accounts, account_is_default());
    if i >= 0 {
        Some(accounts[i])
    } else {
        None
    }
}

/// Two accounts with the same id.
pub open spec fn same_account_id() -> spec_fn(Account, Account) -> bool {
    |a: Account, b: Account| a.id@ == b.id@
}

/// Two accounts that are both marked as the default sender.
pub open spec fn both_default() -> spec_fn(Account, Account) -> bool {
    |a: Account, b: Account| a.is_default_sender && b.is_default_sender
}

/// Two folder rows with the same key.
pub open spec fn same_folder_key() -> spec_fn(Folder, Folder) -> bool {
    |a: Folder, b: Folder| a.account_id@ == b.account_id@ && a.path@ == b.path@
}

/// Two header rows with the same key.
pub open spec fn same_header_key() -> spec_fn(HeaderView, HeaderView) -> bool {
    |a: HeaderView, b: HeaderView|
        a.account_id@ == b.account_id@ && a.folder_path@ == b.folder_path@ && a.uid == b.uid
}

/// Two body rows with the same key.
pub open spec fn same_body_key() -> spec_fn(BodyRow, BodyRow) -> bool {
    |a: BodyRow, b: BodyRow|
        a.account_id@ == b.account_id@ && a.folder_path@ == b.folder_path@ && a.uid == b.uid
}

/// Two attachment rows with the same key.
pub open spec fn same_attachment_key() -> spec_fn(AttachmentMeta, AttachmentMeta) -> bool {
    |a: AttachmentMeta, b: AttachmentMeta| attachment_same_key(a)(b)
}

/// The well-formedness of the tables: every key occurs once, and at most one
/// account is the default sender.
pub open spec fn tables_wf(v: StoreView) -> bool {
    &&& unique_by(v.accounts, same_account_id())
    &&& unique_by(v.accounts, both_default())
    &&& unique_by(v.folders, same_folder_key())
    &&& unique_by(v.headers, same_header_key())
    &&& unique_by(v.bodies, same_body_key())
    &&& unique_by(v.attachments, same_attachment_key())
}

// ---------------------------------------------------------------------------
// Accounts

/// `a` with the default-sender mark removed.
pub open spec fn without_default(a: Account) -> Account {
    Account { is_default_sender: false, ..a }
}

/// `a` marked as the default sender when its id is `id`.
pub open spec fn with_default_if(a: Account, id: Seq<char>) -> Account {
    if a.id@ == id {
        Account { is_default_sender: true, ..a }
    } else {
        a
    }
}

/// The accounts table after saving `a`: a default `a` first takes the mark
/// from every account; `a` then replaces the row with its id or is added; if
/// no account is then the default, `a` becomes it.
pub open spec fn accounts_after_upsert(accounts: Seq<Account>, a: Account) -> Seq<Account> {
    let cleared = if a.is_default_sender {
        accounts.map_values(|r: Account| without_default(r))
    } else {
        accounts
    };
    let saved = upsert(cleared, a, account_has_id(a.id@));
    if first_index(saved, account_is_default()) >= 0 {
        saved
    } else {
        saved.map_values(|r: Account| with_default_if(r, a.id@))
    }
}


// ---------------------------------------------------------------------------
// Query orders

/// The order of the account list: the default sender first, then by name.
pub open spec fn account_before() -> spec_fn(Account, Account) -> bool {
    |a: Account, b: Account|
        (a.is_default_sender && !b.is_default_sender) || (a.is_default_sender == b.is_default_sender
            && seq_less(a.display_name@, b.display_name@))
}

/// The place of a folder in the folder list: the inbox, then sent mail, then
/// every other folder.
pub open spec fn folder_rank(f: Folder) -> int {
    match f.role {
        Some(r) => if r@ == "inbox"@ {
            0
        } else if r@ == "sent"@ {
            1
        } else {
            2
        },
        None => 2,
    }
}

/// The order of the folder list: by rank, then by name.
pub open spec fn folder_before() -> spec_fn(Folder, Folder) -> bool {
    |a: Folder, b: Folder|
        folder_rank(a) < folder_rank(b) || (folder_rank(a) == folder_rank(b) && seq_less(
            a.display_name@,
            b.display_name@,
        ))
}

/// The order of message lists: newest first.
pub open spec fn newer_first() -> spec_fn(HeaderView, HeaderView) -> bool {
    |a: HeaderView, b: HeaderView| later_than(a.date, b.date)
}

/// The order of attachment lists: by file name.
pub open spec fn attachment_before() -> spec_fn(AttachmentMeta, AttachmentMeta) -> bool {
    |a: AttachmentMeta, b: AttachmentMeta| seq_less(a.filename@, b.filename@)
}

/// The most messages that one message list holds.
pub const MESSAGE_LIST_LIMIT: usize = 500;

/// The text of the error that a row naming an unknown account raises.
pub open spec fn foreign_key_message() -> Seq<char> {
    "FOREIGN KEY constraint failed"@
}

// ---------------------------------------------------------------------------
// Query results

/// Whether the account `id` exists and has synchronisation switched on.
pub open spec fn account_enabled(accounts: Seq<Account>, id: Seq<char>) -> bool {
    find_account(accounts, id) matches Some(a) && a.sync_enabled
}

/// The header rows of a message list: in folder `folder` and of account
/// `account` where these are given, of an existing account, and, when
/// `enabled_only`, of an account with synchronisation switched on.
pub open spec fn header_selected(
    accounts: Seq<Account>,
    folder: Option<Seq<char>>,
    account: Option<Seq<char>>,
    enabled_only: bool,
) -> spec_fn(HeaderView) -> bool {
    |h: HeaderView|
        (folder matches Some(f) ==> h.folder_path@ == f) && (account matches Some(a) ==> h.account_id@
            == a) && has_account(accounts, h.account_id@) && (enabled_only ==> account_enabled(
            accounts,
            h.account_id@,
        ))
}

/// A header row with the address and name of its account filled in.
pub open spec fn joined_header(accounts: Seq<Account>, h: HeaderView) -> HeaderView {
    let a = find_account(accounts, h.account_id@).unwrap();
    HeaderView { account_email: a.email, account_display_name: a.display_name, ..h }
}

/// A message list: the selected headers joined with their accounts, newest
/// first, at most `MESSAGE_LIST_LIMIT` of them.
pub open spec fn message_list(
    v: StoreView,
    folder: Option<Seq<char>>,
    account: Option<Seq<char>>,
    enabled_only: bool,
) -> Seq<HeaderView> {
    limit(
        sort_by(
            v.headers.filter(header_selected(v.accounts, folder, account, enabled_only)).map_values(
                |h: HeaderView| joined_header(v.accounts, h),
            ),
            newer_first(),
        ),
        MESSAGE_LIST_LIMIT as nat,
    )
}

/// Matches the folders of account `account_id`.
pub open spec fn folder_of_account(account_id: Seq<char>) -> spec_fn(Folder) -> bool {
    |f: Folder| f.account_id@ == account_id
}

/// The folders of account `account_id` in list order.
pub open spec fn folder_list(v: StoreView, account_id: Seq<char>) -> Seq<Folder> {
    sort_by(v.folders.filter(folder_of_account(account_id)), folder_before())
}

/// The body row with the key (`account_id`, `folder_path`, `uid`), if there is one.
pub open spec fn find_body(bodies: Seq<BodyRow>, account_id: Seq<char>, folder_path: Seq<char>, uid: i64) -> Option<BodyRow> {
    let i = first_index(bodies, body_has_key(account_id, folder_path, uid));
    if i >= 0 {
        Some(bodies[i])
    } else {
        None
    }
}

/// The attachments of a message in list order.
pub open spec fn attachment_list(v: StoreView, account_id: Seq<char>, folder_path: Seq<char>, uid: i64) -> Seq<AttachmentMeta> {
    sort_by(v.attachments.filter(attachment_of(account_id, folder_path, uid)), attachment_before())
}

/// The cached body of a message with its attachments, if there is one.
pub open spec fn cached_body_of(v: StoreView, account_id: Seq<char>, folder_path: Seq<char>, uid: i64) -> Option<BodyView> {
    match find_body(v.bodies, account_id, folder_path, uid) {
        Some(row) => Some(
            BodyView {
                account_id: row.account_id,
                folder_path: row.folder_path,
                uid: row.uid,
                text_body: row.text_body,
                sanitized_html_body: row.sanitized_html_body,
                fetched_at: row.fetched_at,
                attachments: attachment_list(v, account_id, folder_path, uid),
            },
        ),
        None => None,
    }
}

/// The body row that stores `b`.
pub open spec fn body_row(b: BodyView) -> BodyRow {
    BodyRow {
        account_id: b.account_id,
        folder_path: b.folder_path,
        uid: b.uid,
        text_body: b.text_body,
        sanitized_html_body: b.sanitized_html_body,
        fetched_at: b.fetched_at,
    }
}

/// The attachment table after saving `atts` one by one into `table`; the
/// flag tells whether all were saved, saving stopping at the first one whose
/// account does not exist.
pub open spec fn save_attachments(accounts: Seq<Account>, table: Seq<AttachmentMeta>, atts: Seq<AttachmentMeta>) -> (Seq<AttachmentMeta>, bool)
    decreases atts.len(),
{
    if atts.len() == 0 {
        (table, true)
    } else if !has_account(accounts, atts[0].account_id@) {
        (table, false)
    } else {
        save_attachments(accounts, upsert(table, atts[0], attachment_same_key(atts[0])), atts.drop_first())
    }
}

/// The tables without the account `id` and everything stored for it.
pub open spec fn without_account(v: StoreView, id: Seq<char>) -> StoreView {
    StoreView {
        accounts: v.accounts.filter(|a: Account| a.id@ != id),
        folders: v.folders.filter(|f: Folder| f.account_id@ != id),
        headers: v.headers.filter(|h: HeaderView| h.account_id@ != id),
        bodies: v.bodies.filter(|b: BodyRow| b.account_id@ != id),
        attachments: v.attachments.filter(|a: AttachmentMeta| a.account_id@ != id),
    }
}

/// `u` is `prev` with the fields of `input`, text fields trimmed; the id,
/// the credential key and the last error stay.
pub open spec fn account_updated(u: Account, prev: Account, input: AccountInput) -> bool {
    &&& u.id == prev.id
    &&& u.credential_key == prev.credential_key
    &&& u.last_error == prev.last_error
    &&& u.display_name@ == crate::text::trim_seq(input.display_name@)
    &&& u.email@ == crate::text::trim_seq(input.email@)
    &&& u.imap_host@ == crate::text::trim_seq(input.imap_host@)
    &&& u.imap_port == input.imap_port
    &&& u.imap_security == input.imap_security
    &&& u.smtp_host@ == crate::text::trim_seq(input.smtp_host@)
    &&& u.smtp_port == input.smtp_port
    &&& u.smtp_security == input.smtp_security
    &&& u.username@ == crate::text::trim_seq(input.username@)
    &&& u.is_default_sender == input.is_default_sender
    &&& u.sync_enabled == input.sync_enabled
}

/// The view of an optional borrowed string.
pub open spec fn opt_ref_view(o: Option<&str>) -> Option<Seq<char>> {
    match o {
        Some(s) => Some(s@),
        None => None,
    }
}

/// `a` with its last error replaced when its id is `id`.
pub open spec fn error_recorded(new: Account, old: Account, id: Seq<char>, error: Option<Seq<char>>) -> bool {
    if old.id@ == id {
        new == Account { last_error: new.last_error, ..old } && opt_str_view(new.last_error) == error
    } else {
        new == old
    }
}

impl Store {
    /// The well-formedness of the tables.
    pub open spec fn wf(&self) -> bool {
        tables_wf(self@)
    }

    /// An empty cache.
    pub fn in_memory() -> (r: AppResult<Store>)
        ensures
            r matches Ok(s) && s.wf() && s@.accounts.len() == 0 && s@.folders.len() == 0
                && s@.headers.len() == 0 && s@.bodies.len() == 0 && s@.attachments.len() == 0,
    {
        let s = Store {
            accounts: Vec::new(),
            folders: Vec::new(),
            headers: Vec::new(),
            bodies: Vec::new(),
            attachments: Vec::new(),
        };
        assert(header_views(s.headers@) =~= Seq::<HeaderView>::empty());
        Ok(s)
    }

    /// The account whose id is `id`, if there is one.
    pub fn account(&self, id: &str) -> (r: AppResult<Option<Account>>)
        ensures
            r == Ok::<Option<Account>, AppError>(find_account(self@.accounts, id@)),
    {
        match account_position(&self.accounts, id) {
            Some(i) => Ok(Some(self.accounts[i].clone())),
            None => Ok(None),
        }
    }

    /// The default sending account, if there is one.
    pub fn default_account(&self) -> (r: AppResult<Option<Account>>)
        ensures
            r == Ok::<Option<Account>, AppError>(find_default(self@.accounts)),
    {
        match default_position(&self.accounts) {
            Some(i) => Ok(Some(self.accounts[i].clone())),
            None => Ok(None),
        }
    }

    /// Saves `account`: inserted when its id is new, replacing the stored
    /// account otherwise. A default sender takes the mark from every other
    /// account, and when no account is the default afterwards, `account`
    /// becomes it.
    pub fn upsert_account(&mut self, account: &Account) -> (r: AppResult<()>)
        requires
            old(self).wf(),
        ensures
            final(self).wf(),
            r is Ok,
            final(self)@ == (StoreView {
                accounts: accounts_after_upsert(old(self)@.accounts, *account),
                ..old(self)@
            }),
    {
        let mut rows: Vec<Account> = Vec::new();
        std::mem::swap(&mut rows, &mut self.accounts);
        save_account(&mut rows, account);
        self.accounts = rows;
        proof {
            lemma_accounts_after_upsert_wf(old(self)@, *account);
            assert(self@ == StoreView { accounts: accounts_after_upsert(old(self)@.accounts, *account), ..old(self)@ });
        }
        Ok(())
    }

    /// All accounts: the default sender first, then by display name.
    pub fn accounts(&self) -> (r: AppResult<Vec<Account>>)
        ensures
            r matches Ok(v) && v@ == sort_by(self@.accounts, account_before()),
            r matches Ok(v) ==> forall|i: int, j: int|
                0 <= i < v@.len() && 0 <= j < v@.len() && (#[trigger] v@[i]).is_default_sender
                    && !(#[trigger] v@[j]).is_default_sender ==> i < j,
            r matches Ok(v) ==> forall|i: int, j: int|
                0 <= i < v@.len() && 0 <= j < v@.len() && (#[trigger] v@[i]).is_default_sender
                    == (#[trigger] v@[j]).is_default_sender && seq_less(v@[i].display_name@, v@[j].display_name@)
                    ==> i < j,
    {
        let v = sorted_accounts(&self.accounts);
        proof {
            lemma_account_list_order(self@.accounts, v@);
        }
        Ok(v)
    }

    /// Records the last synchronisation error of account `account_id`
    /// (`None` clears it); other accounts are unchanged.
    pub fn set_account_error(&mut self, account_id: &str, error: Option<&str>) -> (r: AppResult<()>)
        requires
            old(self).wf(),
        ensures
            final(self).wf(),
            r is Ok,
            final(self)@.accounts.len() == old(self)@.accounts.len(),
            forall|k: int| 0 <= k < old(self)@.accounts.len() ==> error_recorded(
                #[trigger] final(self)@.accounts[k],
                old(self)@.accounts[k],
                account_id@,
                opt_ref_view(error),
            ),
            final(self)@.folders == old(self)@.folders,
            final(self)@.headers == old(self)@.headers,
            final(self)@.bodies == old(self)@.bodies,
            final(self)@.attachments == old(self)@.attachments,
    {
        let mut rows: Vec<Account> = Vec::new();
        std::mem::swap(&mut rows, &mut self.accounts);
        let ghost before = rows@;
        let mut i: usize = 0;
        while i < rows.len()
            invariant
                i <= rows@.len(),
                rows@.len() == before.len(),
                forall|k: int| 0 <= k < i ==> error_recorded(#[trigger] rows@[k], before[k], account_id@, opt_ref_view(error)),
                forall|k: int| i <= k < before.len() ==> #[trigger] rows@[k] == before[k],
            decreases rows.len() - i,
        {
            if str_eq(rows[i].id.as_str(), account_id) {
                let mut a = rows[i].clone();
                a.last_error = match error {
                    Some(e) => Some(e.to_owned()),
                    None => None,
                };
                rows.set(i, a);
            }
            i = i + 1;
        }
        self.accounts = rows;
        proof {
            let v = self@;
            assert forall|x: int, y: int|
                0 <= x < v.accounts.len() && 0 <= y < v.accounts.len() && x != y implies !same_account_id()(
                #[trigger] v.accounts[x],
                #[trigger] v.accounts[y],
            ) by {
                assert(!same_account_id()(before[x], before[y]));
            }
            assert forall|x: int, y: int|
                0 <= x < v.accounts.len() && 0 <= y < v.accounts.len() && x != y implies !both_default()(
                #[trigger] v.accounts[x],
                #[trigger] v.accounts[y],
            ) by {
                assert(!both_default()(before[x], before[y]));
            }
        }
        Ok(())
    }

    /// Saves `folder` under its key (account, path); fails, changing
    /// nothing, when its account does not exist.
    pub fn upsert_folder(&mut self, folder: &Folder) -> (r: AppResult<()>)
        requires
            old(self).wf(),
        ensures
            final(self).wf(),
            match r {
                Ok(()) => has_account(old(self)@.accounts, folder.account_id@) && final(self)@ == (StoreView {
                    folders: upsert(old(self)@.folders, *folder, folder_has_key(folder.account_id@, folder.path@)),
                    ..old(self)@
                }),
                Err(e) => !has_account(old(self)@.accounts, folder.account_id@) && is_database(e, foreign_key_message())
                    && final(self)@ == old(self)@,
            },
    {
        if account_position(&self.accounts, folder.account_id.as_str()).is_none() {
            return Err(AppError::Database("FOREIGN KEY constraint failed".to_owned()));
        }
        proof {
            assert(folder_has_key(folder.account_id@, folder.path@) =~= (|y: Folder| same_folder_key()(*folder, y)));
            lemma_upsert_unique(self.folders@, *folder, same_folder_key());
        }
        match folder_position(&self.folders, folder.account_id.as_str(), folder.path.as_str()) {
            Some(i) => self.folders.set(i, folder.clone()),
            None => self.folders.push(folder.clone()),
        }
        Ok(())
    }

    /// The folders of account `account_id`: the inbox, then sent mail, then
    /// the rest, each group by display name.
    pub fn folders(&self, account_id: &str) -> (r: AppResult<Vec<Folder>>)
        ensures
            r matches Ok(v) && v@ == folder_list(self@, account_id@),
            r matches Ok(v) ==> forall|i: int, j: int|
                0 <= i < v@.len() && 0 <= j < v@.len() && folder_rank(#[trigger] v@[i]) < folder_rank(#[trigger] v@[j])
                    ==> i < j,
            r matches Ok(v) ==> forall|i: int, j: int|
                0 <= i < v@.len() && 0 <= j < v@.len() && folder_rank(#[trigger] v@[i]) == folder_rank(#[trigger] v@[j])
                    && seq_less(v@[i].display_name@, v@[j].display_name@) ==> i < j,
    {
        let ghost p = folder_of_account(account_id@);
        let mut out: Vec<Folder> = Vec::new();
        let mut i: usize = 0;
        while i < self.folders.len()
            invariant
                p == folder_of_account(account_id@),
                i <= self.folders@.len(),
                out@ == self.folders@.take(i as int).filter(p),
            decreases self.folders.len() - i,
        {
            proof {
                assert(self.folders@.take(i + 1) =~= self.folders@.take(i as int).push(self.folders@[i as int]));
                self.folders@.take(i as int).lemma_filter_push(self.folders@[i as int], p);
            }
            if str_eq(self.folders[i].account_id.as_str(), account_id) {
                out.push(self.folders[i].clone());
            }
            i = i + 1;
        }
        assert(self.folders@.take(self.folders@.len() as int) =~= self.folders@);
        let v = sorted_folders(out);
        proof {
            lemma_folder_list_order(self@, account_id@, v@);
        }
        Ok(v)
    }

    /// Saves `message` under its key (account, folder, uid); fails, changing
    /// nothing, when its account does not exist.
    pub fn upsert_message_header(&mut self, message: &MessageHeader) -> (r: AppResult<()>)
        requires
            old(self).wf(),
        ensures
            final(self).wf(),
            match r {
                Ok(()) => has_account(old(self)@.accounts, message.account_id@) && final(self)@ == (StoreView {
                    headers: upsert(old(self)@.headers, message@, header_has_key(message.account_id@, message.folder_path@, message.uid)),
                    ..old(self)@
                }),
                Err(e) => !has_account(old(self)@.accounts, message.account_id@) && is_database(e, foreign_key_message())
                    && final(self)@ == old(self)@,
            },
    {
        if account_position(&self.accounts, message.account_id.as_str()).is_none() {
            return Err(AppError::Database("FOREIGN KEY constraint failed".to_owned()));
        }
        let ghost hv = header_views(self.headers@);
        proof {
            assert(header_has_key(message.account_id@, message.folder_path@, message.uid) =~= (|y: HeaderView| same_header_key()(message@, y)));
            lemma_upsert_unique(hv, message@, same_header_key());
        }
        match header_position(&self.headers, message.account_id.as_str(), message.folder_path.as_str(), message.uid) {
            Some(i) => {
                self.headers.set(i, message.clone());
                assert(header_views(self.headers@) =~= hv.update(i as int, message@));
            },
            None => {
                self.headers.push(message.clone());
                assert(header_views(self.headers@) =~= hv.push(message@));
            },
        }
        Ok(())
    }

    /// The unified inbox: the inbox messages of every account with
    /// synchronisation switched on, or of account `account_id` alone (when it
    /// has it switched on), newest first and at most `MESSAGE_LIST_LIMIT`.
    pub fn unified_inbox(&self, account_id: Option<&str>) -> (r: AppResult<Vec<MessageHeader>>)
        ensures
            r matches Ok(v) && header_views(v@) == message_list(self@, Some("INBOX"@), opt_ref_view(account_id), true),
    {
        self.select_messages(Some("INBOX"), account_id, true)
    }

    /// The messages in folder `folder_path` and of account `account_id`,
    /// where these are given, each with its account's address and name,
    /// newest first and at most `MESSAGE_LIST_LIMIT` of them.
    pub fn messages(&self, folder_path: Option<&str>, account_id: Option<&str>) -> (r: AppResult<Vec<MessageHeader>>)
        ensures
            r matches Ok(v) && header_views(v@) == message_list(self@, opt_ref_view(folder_path), opt_ref_view(account_id), false),
    {
        self.select_messages(folder_path, account_id, false)
    }

    fn select_messages(&self, folder_path: Option<&str>, account_id: Option<&str>, enabled_only: bool) -> (r: AppResult<Vec<MessageHeader>>)
        ensures
            r matches Ok(v) && header_views(v@) == message_list(self@, opt_ref_view(folder_path), opt_ref_view(account_id), enabled_only),
    {
        let ghost v = self@;
        let ghost p = header_selected(v.accounts, opt_ref_view(folder_path), opt_ref_view(account_id), enabled_only);
        let ghost j = |h: HeaderView| joined_header(v.accounts, h);
        let mut out: Vec<MessageHeader> = Vec::new();
        let mut i: usize = 0;
        while i < self.headers.len()
            invariant
                v == self@,
                p == header_selected(v.accounts, opt_ref_view(folder_path), opt_ref_view(account_id), enabled_only),
                j == (|h: HeaderView| joined_header(v.accounts, h)),
                i <= self.headers@.len(),
                header_views(out@) == v.headers.take(i as int).filter(p).map_values(j),
            decreases self.headers.len() - i,
        {
            let h = &self.headers[i];
            proof {
                assert(v.headers[i as int] == h@);
                assert(v.headers.take(i + 1) =~= v.headers.take(i as int).push(h@));
                v.headers.take(i as int).lemma_filter_push(h@, p);
            }
            let folder_ok = match folder_path {
                Some(f) => str_eq(h.folder_path.as_str(), f),
                None => true,
            };
            let account_ok = match account_id {
                Some(a) => str_eq(h.account_id.as_str(), a),
                None => true,
            };
            if folder_ok && account_ok {
                match account_position(&self.accounts, h.account_id.as_str()) {
                    Some(k) if !enabled_only || self.accounts[k].sync_enabled => {
                        let mut row = h.clone();
                        row.account_email = self.accounts[k].email.clone();
                        row.account_display_name = self.accounts[k].display_name.clone();
                        let ghost before = header_views(out@);
                        out.push(row);
                        proof {
                            assert(p(h@));
                            assert(row@ == j(h@));
                            assert(header_views(out@) =~= before.push(row@));
                            assert(v.headers.take(i as int).filter(p).push(h@).map_values(j) =~= v.headers.take(i as int).filter(p).map_values(j).push(j(h@)));
                        }
                    },
                    _ => {
                        assert(!p(h@));
                    },
                }
            } else {
                assert(!p(h@));
            }
            i = i + 1;
        }
        assert(v.headers.take(self.headers@.len() as int) =~= v.headers);
        let mut sorted = sorted_headers(out);
        let ghost full = header_views(sorted@);
        if sorted.len() > MESSAGE_LIST_LIMIT {
            sorted.truncate(MESSAGE_LIST_LIMIT);
            assert(header_views(sorted@) =~= full.take(MESSAGE_LIST_LIMIT as int));
        }
        Ok(sorted)
    }

    /// The cached body of a message with its attachments by file name, or
    /// `None` when it is not cached.
    pub fn cached_body(&self, account_id: &str, folder_path: &str, uid: i64) -> (r: AppResult<Option<MessageBody>>)
        ensures
            r matches Ok(o) && match o {
                Some(b) => cached_body_of(self@, account_id@, folder_path@, uid) == Some(b@),
                None => cached_body_of(self@, account_id@, folder_path@, uid) is None,
            },
    {
        match body_position(&self.bodies, account_id, folder_path, uid) {
            Some(i) => {
                let row = &self.bodies[i];
                let attachments = self.attachments_of(account_id, folder_path, uid);
                Ok(Some(MessageBody {
                    account_id: row.account_id.clone(),
                    folder_path: row.folder_path.clone(),
                    uid: row.uid,
                    text_body: row.text_body.clone(),
                    sanitized_html_body: row.sanitized_html_body.clone(),
                    fetched_at: row.fetched_at,
                    attachments,
                }))
            },
            None => Ok(None),
        }
    }

    /// Saves `body` under its key (account, folder, uid): the body row is
    /// inserted or replaced, the message's stored attachments are dropped,
    /// and `body.attachments` are saved one by one under their own keys.
    /// Fails, changing nothing, when the body's account does not exist; an
    /// attachment whose account does not exist stops the saving there and
    /// fails, what was saved before it staying saved.
    pub fn upsert_body(&mut self, body: &MessageBody) -> (r: AppResult<()>)
        requires
            old(self).wf(),
        ensures
            final(self).wf(),
            !has_account(old(self)@.accounts, body.account_id@) ==> (r matches Err(e) && is_database(e, foreign_key_message())
                && final(self)@ == old(self)@),
            has_account(old(self)@.accounts, body.account_id@) ==> ({
                let cleared = old(self)@.attachments.filter(|a: AttachmentMeta| !attachment_of(body.account_id@, body.folder_path@, body.uid)(a));
                let saved = save_attachments(old(self)@.accounts, cleared, body.attachments@);
                &&& final(self)@ == (StoreView {
                    bodies: upsert(old(self)@.bodies, body_row(body@), body_has_key(body.account_id@, body.folder_path@, body.uid)),
                    attachments: saved.0,
                    ..old(self)@
                })
                &&& (r is Ok <==> saved.1)
                &&& (r matches Err(e) ==> is_database(e, foreign_key_message()))
            }),
    {
        if account_position(&self.accounts, body.account_id.as_str()).is_none() {
            return Err(AppError::Database("FOREIGN KEY constraint failed".to_owned()));
        }
        let row = BodyRow {
            account_id: body.account_id.clone(),
            folder_path: body.folder_path.clone(),
            uid: body.uid,
            text_body: body.text_body.clone(),
            sanitized_html_body: body.sanitized_html_body.clone(),
            fetched_at: body.fetched_at,
        };
        assert(row == body_row(body@));
        proof {
            assert(body_has_key(body.account_id@, body.folder_path@, body.uid) =~= (|y: BodyRow| same_body_key()(row, y)));
            lemma_upsert_unique(self.bodies@, row, same_body_key());
        }
        match body_position(&self.bodies, body.account_id.as_str(), body.folder_path.as_str(), body.uid) {
            Some(i) => self.bodies.set(i, row),
            None => self.bodies.push(row),
        }
        let mut table: Vec<AttachmentMeta> = Vec::new();
        std::mem::swap(&mut table, &mut self.attachments);
        let ghost keep = |a: AttachmentMeta| !attachment_of(body.account_id@, body.folder_path@, body.uid)(a);
        let ghost before = table@;
        let mut cleared: Vec<AttachmentMeta> = Vec::new();
        let mut i: usize = 0;
        while i < table.len()
            invariant
                keep == (|a: AttachmentMeta| !attachment_of(body.account_id@, body.folder_path@, body.uid)(a)),
                table@ == before,
                i <= table@.len(),
                cleared@ == before.take(i as int).filter(keep),
            decreases table.len() - i,
        {
            proof {
                assert(before.take(i + 1) =~= before.take(i as int).push(before[i as int]));
                before.take(i as int).lemma_filter_push(before[i as int], keep);
            }
            let a = &table[i];
            if !(str_eq(a.account_id.as_str(), body.account_id.as_str()) && str_eq(a.folder_path.as_str(), body.folder_path.as_str()) && a.uid == body.uid) {
                cleared.push(a.clone());
            }
            i = i + 1;
        }
        assert(before.take(before.len() as int) =~= before);
        proof {
            lemma_filter_unique(before, keep, same_attachment_key());
        }
        let ghost accounts = self.accounts@;
        let ghost goal = save_attachments(accounts, cleared@, body.attachments@);
        let mut failed = false;
        let mut k: usize = 0;
        assert(body.attachments@.skip(0) =~= body.attachments@);
        while k < body.attachments.len()
            invariant
                accounts == self.accounts@,
                k <= body.attachments@.len(),
                !failed ==> save_attachments(accounts, cleared@, body.attachments@.skip(k as int)) == goal,
                failed ==> goal == (cleared@, false),
                failed ==> k == body.attachments@.len(),
                unique_by(cleared@, same_attachment_key()),
            decreases body.attachments.len() - k,
        {
            let att = &body.attachments[k];
            assert(body.attachments@.skip(k as int)[0] == *att);
            assert(body.attachments@.skip(k as int).drop_first() =~= body.attachments@.skip(k + 1));
            if account_position(&self.accounts, att.account_id.as_str()).is_none() {
                failed = true;
                k = body.attachments.len();
            } else {
                proof {
                    assert(attachment_same_key(*att) =~= (|y: AttachmentMeta| same_attachment_key()(*att, y)));
                    lemma_upsert_unique(cleared@, *att, same_attachment_key());
                }
                match attachment_position(&cleared, att) {
                    Some(j) => cleared.set(j, att.clone()),
                    None => cleared.push(att.clone()),
                }
                k = k + 1;
            }
        }
        if !failed {
            assert(body.attachments@.skip(k as int) =~= Seq::<AttachmentMeta>::empty());
        }
        self.attachments = cleared;
        if failed {
            Err(AppError::Database("FOREIGN KEY constraint failed".to_owned()))
        } else {
            Ok(())
        }
    }

    /// Deletes account `id` together with its folders, headers, bodies and
    /// attachments, and returns the account as it was, if there was one.
    pub fn remove_account(&mut self, id: &str) -> (r: AppResult<Option<Account>>)
        requires
            old(self).wf(),
        ensures
            final(self).wf(),
            r == Ok::<Option<Account>, AppError>(find_account(old(self)@.accounts, id@)),
            final(self)@ == without_account(old(self)@, id@),
    {
        let found = match account_position(&self.accounts, id) {
            Some(i) => Some(self.accounts[i].clone()),
            None => None,
        };
        let ghost v = self@;
        let accounts = accounts_except(&self.accounts, id);
        let folders = folders_except(&self.folders, id);
        let headers = headers_except(&self.headers, id);
        let bodies = bodies_except(&self.bodies, id);
        let attachments = attachments_except(&self.attachments, id);
        self.accounts = accounts;
        self.folders = folders;
        self.headers = headers;
        self.bodies = bodies;
        self.attachments = attachments;
        proof {
            lemma_filter_unique(v.accounts, |a: Account| a.id@ != id@, same_account_id());
            lemma_filter_unique(v.accounts, |a: Account| a.id@ != id@, both_default());
            lemma_filter_unique(v.folders, |f: Folder| f.account_id@ != id@, same_folder_key());
            lemma_filter_unique(v.headers, |h: HeaderView| h.account_id@ != id@, same_header_key());
            lemma_filter_unique(v.bodies, |b: BodyRow| b.account_id@ != id@, same_body_key());
            lemma_filter_unique(v.attachments, |a: AttachmentMeta| a.account_id@ != id@, same_attachment_key());
        }
        Ok(found)
    }

    /// Changes account `id` to the fields of `input` (text trimmed; the id,
    /// the credential key and the last error stay) and saves it as
    /// `upsert_account` does; returns the saved account. Fails with
    /// "account not found", changing nothing, when there is no such account.
    pub fn update_account(&mut self, id: &str, input: &AccountInput) -> (r: AppResult<Account>)
        requires
            old(self).wf(),
        ensures
            final(self).wf(),
            match find_account(old(self)@.accounts, id@) {
                None => r matches Err(e) && is_validation(e, "account not found"@) && final(self)@ == old(self)@,
                Some(prev) => r matches Ok(a) && exists|u: Account| #[trigger] account_updated(u, prev, *input)
                    && final(self)@ == (StoreView { accounts: accounts_after_upsert(old(self)@.accounts, u), ..old(self)@ })
                    && find_account(final(self)@.accounts, id@) == Some(a)
                    && a.credential_key == prev.credential_key
                    && a.id == prev.id
                    && a.last_error == prev.last_error
                    && a.display_name@ == trim_seq(input.display_name@)
                    && a.email@ == trim_seq(input.email@)
                    && a.imap_host@ == trim_seq(input.imap_host@)
                    && a.imap_port == input.imap_port
                    && a.imap_security == input.imap_security
                    && a.smtp_host@ == trim_seq(input.smtp_host@)
                    && a.smtp_port == input.smtp_port
                    && a.smtp_security == input.smtp_security
                    && a.username@ == trim_seq(input.username@)
                    && a.sync_enabled == input.sync_enabled
                    && (input.is_default_sender ==> a.is_default_sender),
            },
    {
        let mut u = match account_position(&self.accounts, id) {
            Some(i) => self.accounts[i].clone(),
            None => {
                return Err(crate::error::validation("account not found"));
            },
        };
        let ghost prev = u;
        u.display_name = trim(input.display_name.as_str());
        u.email = trim(input.email.as_str());
        u.imap_host = trim(input.imap_host.as_str());
        u.imap_port = input.imap_port;
        u.imap_security = input.imap_security;
        u.smtp_host = trim(input.smtp_host.as_str());
        u.smtp_port = input.smtp_port;
        u.smtp_security = input.smtp_security;
        u.username = trim(input.username.as_str());
        u.is_default_sender = input.is_default_sender;
        u.sync_enabled = input.sync_enabled;
        assert(account_updated(u, prev, *input));
        proof {
            lemma_find_account_has_id(old(self)@.accounts, id@);
            lemma_account_read_after_save(self@.accounts, u);
            lemma_update_stores_input(self@.accounts, prev, *input, u);
        }
        let _ = self.upsert_account(&u);
        match account_position(&self.accounts, id) {
            Some(i) => Ok(self.accounts[i].clone()),
            None => Err(crate::error::validation("account not found after update")),
        }
    }

    /// A cache holding the given rows, or `None` when they break a key
    /// constraint or mark more than one default sender.
    pub fn from_tables(
        accounts: Vec<Account>,
        folders: Vec<Folder>,
        headers: Vec<MessageHeader>,
        bodies: Vec<BodyRow>,
        attachments: Vec<AttachmentMeta>,
    ) -> (r: Option<Store>)
        ensures
            match r {
                Some(s) => s.wf() && s@ == (StoreView {
                    accounts: accounts@,
                    folders: folders@,
                    headers: header_views(headers@),
                    bodies: bodies@,
                    attachments: attachments@,
                }),
                None => !tables_wf(StoreView {
                    accounts: accounts@,
                    folders: folders@,
                    headers: header_views(headers@),
                    bodies: bodies@,
                    attachments: attachments@,
                }),
            },
    {
        let s = Store { accounts, folders, headers, bodies, attachments };
        if accounts_valid(&s.accounts) && folders_valid(&s.folders) && headers_valid(&s.headers) && bodies_valid(&s.bodies)
            && attachments_valid(&s.attachments) {
            Some(s)
        } else {
            None
        }
    }

    /// The rows of the accounts table.
    pub fn account_rows(&self) -> (r: &Vec<Account>)
        ensures
            r@ == self@.accounts,
    {
        &self.accounts
    }

    /// The rows of the folders table.
    pub fn folder_rows(&self) -> (r: &Vec<Folder>)
        ensures
            r@ == self@.folders,
    {
        &self.folders
    }

    /// The rows of the message header table.
    pub fn header_rows(&self) -> (r: &Vec<MessageHeader>)
        ensures
            header_views(r@) == self@.headers,
    {
        &self.headers
    }

    /// The rows of the message body table.
    pub fn body_rows(&self) -> (r: &Vec<BodyRow>)
        ensures
            r@ == self@.bodies,
    {
        &self.bodies
    }

    /// The rows of the attachment table.
    pub fn attachment_rows(&self) -> (r: &Vec<AttachmentMeta>)
        ensures
            r@ == self@.attachments,
    {
        &self.attachments
    }

    fn attachments_of(&self, account_id: &str, folder_path: &str, uid: i64) -> (r: Vec<AttachmentMeta>)
        ensures
            r@ == attachment_list(self@, account_id@, folder_path@, uid),
    {
        let ghost p = attachment_of(account_id@, folder_path@, uid);
        let mut out: Vec<AttachmentMeta> = Vec::new();
        let mut i: usize = 0;
        while i < self.attachments.len()
            invariant
                p == attachment_of(account_id@, folder_path@, uid),
                i <= self.attachments@.len(),
                out@ == self.attachments@.take(i as int).filter(p),
            decreases self.attachments.len() - i,
        {
            proof {
                assert(self.attachments@.take(i + 1) =~= self.attachments@.take(i as int).push(self.attachments@[i as int]));
                self.attachments@.take(i as int).lemma_filter_push(self.attachments@[i as int], p);
            }
            let a = &self.attachments[i];
            if str_eq(a.account_id.as_str(), account_id) && str_eq(a.folder_path.as_str(), folder_path) && a.uid == uid {
                out.push(a.clone());
            }
            i = i + 1;
        }
        assert(self.attachments@.take(self.attachments@.len() as int) =~= self.attachments@);
        sorted_attachments(out)
    }
}


fn account_position(rows: &Vec<Account>, id: &str) -> (r: Option<usize>)
    ensures
        match r {
            Some(i) => i < rows@.len() && first_index(rows@, account_has_id(id@)) == i,
            None => first_index(rows@, account_has_id(id@)) == -1,
        },
{
    let mut i: usize = 0;
    while i < rows.len()
        invariant
            i <= rows@.len(),
            forall|k: int| 0 <= k < i ==> !account_has_id(id@)(#[trigger] rows@[k]),
        decreases rows.len() - i,
    {
        if crate::text::str_eq(rows[i].id.as_str(), id) {
            proof {
                lemma_first_index_at(rows@, account_has_id(id@), i as int);
            }
            return Some(i);
        }
        i = i + 1;
    }
    proof {
        lemma_first_index_none(rows@, account_has_id(id@));
    }
    None
}

fn default_position(rows: &Vec<Account>) -> (r: Option<usize>)
    ensures
        match r {
            Some(i) => i < rows@.len() && first_index(rows@, account_is_default()) == i,
            None => first_index(rows@, account_is_default()) == -1,
        },
{
    let mut i: usize = 0;
    while i < rows.len()
        invariant
            i <= rows@.len(),
            forall|k: int| 0 <= k < i ==> !account_is_default()(#[trigger] rows@[k]),
        decreases rows.len() - i,
    {
        if rows[i].is_default_sender {
            proof {
                lemma_first_index_at(rows@, account_is_default(), i as int);
            }
            return Some(i);
        }
        i = i + 1;
    }
    proof {
        lemma_first_index_none(rows@, account_is_default());
    }
    None
}

/// The accounts table `rows` after saving `account`.
fn save_account(rows: &mut Vec<Account>, account: &Account)
    ensures
        final(rows)@ == accounts_after_upsert(old(rows)@, *account),
{
    let ghost before = rows@;
    let ghost cleared = if account.is_default_sender {
        before.map_values(|r: Account| without_default(r))
    } else {
        before
    };
    if account.is_default_sender {
        let mut i: usize = 0;
        while i < rows.len()
            invariant
                i <= rows@.len(),
                rows@.len() == before.len(),
                forall|k: int| 0 <= k < i ==> #[trigger] rows@[k] == without_default(before[k]),
                forall|k: int| i <= k < before.len() ==> #[trigger] rows@[k] == before[k],
            decreases rows.len() - i,
        {
            if rows[i].is_default_sender {
                let mut a = rows[i].clone();
                a.is_default_sender = false;
                rows.set(i, a);
            } else {
                assert(rows@[i as int] == without_default(before[i as int]));
            }
            i = i + 1;
        }
        assert(rows@ =~= cleared);
    }
    assert(rows@ == cleared);
    match account_position(rows, account.id.as_str()) {
        Some(i) => {
            rows.set(i, account.clone());
        },
        None => {
            rows.push(account.clone());
        },
    }
    let ghost saved = rows@;
    assert(saved == upsert(cleared, *account, account_has_id(account.id@)));
    let has_default = default_position(rows).is_some();
    if !has_default {
        let mut i: usize = 0;
        while i < rows.len()
            invariant
                i <= rows@.len(),
                rows@.len() == saved.len(),
                forall|k: int| 0 <= k < i ==> #[trigger] rows@[k] == with_default_if(saved[k], account.id@),
                forall|k: int| i <= k < saved.len() ==> #[trigger] rows@[k] == saved[k],
            decreases rows.len() - i,
        {
            if crate::text::str_eq(rows[i].id.as_str(), account.id.as_str()) {
                let mut a = rows[i].clone();
                a.is_default_sender = true;
                rows.set(i, a);
            } else {
                assert(rows@[i as int] == with_default_if(saved[i as int], account.id@));
            }
            i = i + 1;
        }
        assert(rows@ =~= saved.map_values(|r: Account| with_default_if(r, account.id@)));
    }
}

// ---------------------------------------------------------------------------
// Row positions

fn folder_position(rows: &Vec<Folder>, account_id: &str, path: &str) -> (r: Option<usize>)
    ensures
        match r {
            Some(i) => i < rows@.len() && first_index(rows@, folder_has_key(account_id@, path@)) == i,
            None => first_index(rows@, folder_has_key(account_id@, path@)) == -1,
        },
{
    let ghost p = folder_has_key(account_id@, path@);
    let mut i: usize = 0;
    while i < rows.len()
        invariant
            p == folder_has_key(account_id@, path@),
            i <= rows@.len(),
            forall|k: int| 0 <= k < i ==> !p(#[trigger] rows@[k]),
        decreases rows.len() - i,
    {
        if str_eq(rows[i].account_id.as_str(), account_id) && str_eq(rows[i].path.as_str(), path) {
            proof {
                lemma_first_index_at(rows@, p, i as int);
            }
            return Some(i);
        }
        i = i + 1;
    }
    proof {
        lemma_first_index_none(rows@, p);
    }
    None
}

fn header_position(rows: &Vec<MessageHeader>, account_id: &str, folder_path: &str, uid: i64) -> (r: Option<usize>)
    ensures
        match r {
            Some(i) => i < rows@.len() && first_index(header_views(rows@), header_has_key(account_id@, folder_path@, uid)) == i,
            None => first_index(header_views(rows@), header_has_key(account_id@, folder_path@, uid)) == -1,
        },
{
    let ghost p = header_has_key(account_id@, folder_path@, uid);
    let ghost hv = header_views(rows@);
    let mut i: usize = 0;
    while i < rows.len()
        invariant
            p == header_has_key(account_id@, folder_path@, uid),
            hv == header_views(rows@),
            i <= rows@.len(),
            forall|k: int| 0 <= k < i ==> !p(#[trigger] hv[k]),
        decreases rows.len() - i,
    {
        assert(hv[i as int] == rows@[i as int]@);
        if str_eq(rows[i].account_id.as_str(), account_id) && str_eq(rows[i].folder_path.as_str(), folder_path) && rows[i].uid == uid {
            proof {
                lemma_first_index_at(hv, p, i as int);
            }
            return Some(i);
        }
        i = i + 1;
    }
    proof {
        lemma_first_index_none(hv, p);
    }
    None
}

fn body_position(rows: &Vec<BodyRow>, account_id: &str, folder_path: &str, uid: i64) -> (r: Option<usize>)
    ensures
        match r {
            Some(i) => i < rows@.len() && first_index(rows@, body_has_key(account_id@, folder_path@, uid)) == i,
            None => first_index(rows@, body_has_key(account_id@, folder_path@, uid)) == -1,
        },
{
    let ghost p = body_has_key(account_id@, folder_path@, uid);
    let mut i: usize = 0;
    while i < rows.len()
        invariant
            p == body_has_key(account_id@, folder_path@, uid),
            i <= rows@.len(),
            forall|k: int| 0 <= k < i ==> !p(#[trigger] rows@[k]),
        decreases rows.len() - i,
    {
        if str_eq(rows[i].account_id.as_str(), account_id) && str_eq(rows[i].folder_path.as_str(), folder_path) && rows[i].uid == uid {
            proof {
                lemma_first_index_at(rows@, p, i as int);
            }
            return Some(i);
        }
        i = i + 1;
    }
    proof {
        lemma_first_index_none(rows@, p);
    }
    None
}

fn attachment_position(rows: &Vec<AttachmentMeta>, x: &AttachmentMeta) -> (r: Option<usize>)
    ensures
        match r {
            Some(i) => i < rows@.len() && first_index(rows@, attachment_same_key(*x)) == i,
            None => first_index(rows@, attachment_same_key(*x)) == -1,
        },
{
    let ghost p = attachment_same_key(*x);
    let mut i: usize = 0;
    while i < rows.len()
        invariant
            p == attachment_same_key(*x),
            i <= rows@.len(),
            forall|k: int| 0 <= k < i ==> !p(#[trigger] rows@[k]),
        decreases rows.len() - i,
    {
        if str_eq(rows[i].account_id.as_str(), x.account_id.as_str()) && str_eq(rows[i].folder_path.as_str(), x.folder_path.as_str())
            && rows[i].uid == x.uid && str_eq(rows[i].part_id.as_str(), x.part_id.as_str()) {
            proof {
                lemma_first_index_at(rows@, p, i as int);
            }
            return Some(i);
        }
        i = i + 1;
    }
    proof {
        lemma_first_index_none(rows@, p);
    }
    None
}

// ---------------------------------------------------------------------------
// Orders

fn account_precedes(a: &Account, b: &Account) -> (r: bool)
    ensures
        r == account_before()(*a, *b),
{
    (a.is_default_sender && !b.is_default_sender) || (a.is_default_sender == b.is_default_sender
        && str_less(a.display_name.as_str(), b.display_name.as_str()))
}

fn folder_rank_of(f: &Folder) -> (r: u8)
    ensures
        r == folder_rank(*f),
{
    match &f.role {
        Some(role) => if str_eq(role.as_str(), "inbox") {
            0
        } else if str_eq(role.as_str(), "sent") {
            1
        } else {
            2
        },
        None => 2,
    }
}

fn folder_precedes(a: &Folder, b: &Folder) -> (r: bool)
    ensures
        r == folder_before()(*a, *b),
{
    let ra = folder_rank_of(a);
    let rb = folder_rank_of(b);
    ra < rb || (ra == rb && str_less(a.display_name.as_str(), b.display_name.as_str()))
}

fn sorted_accounts(rows: &Vec<Account>) -> (r: Vec<Account>)
    ensures
        r@ == sort_by(rows@, account_before()),
{
    let mut out: Vec<Account> = Vec::new();
    let mut i: usize = 0;
    while i < rows.len()
        invariant
            i <= rows@.len(),
            out@ == sort_by(rows@.take(i as int), account_before()),
        decreases rows.len() - i,
    {
        let x = rows[i].clone();
        let mut j: usize = 0;
        while j < out.len() && !account_precedes(&x, &out[j])
            invariant
                j <= out@.len(),
                forall|k: int| 0 <= k < j ==> !account_before()(x, #[trigger] out@[k]),
            decreases out.len() - j,
        {
            j = j + 1;
        }
        proof {
            lemma_insert_by_at(out@, x, account_before(), j as int);
            assert(rows@.take(i + 1).drop_last() =~= rows@.take(i as int));
            assert(out@.insert(j as int, x) =~= out@.take(j as int).push(x) + out@.skip(j as int));
        }
        out.insert(j, x);
        i = i + 1;
    }
    assert(rows@.take(rows@.len() as int) =~= rows@);
    out
}

fn sorted_folders(rows: Vec<Folder>) -> (r: Vec<Folder>)
    ensures
        r@ == sort_by(rows@, folder_before()),
{
    let mut out: Vec<Folder> = Vec::new();
    let mut i: usize = 0;
    while i < rows.len()
        invariant
            i <= rows@.len(),
            out@ == sort_by(rows@.take(i as int), folder_before()),
        decreases rows.len() - i,
    {
        let x = rows[i].clone();
        let mut j: usize = 0;
        while j < out.len() && !folder_precedes(&x, &out[j])
            invariant
                j <= out@.len(),
                forall|k: int| 0 <= k < j ==> !folder_before()(x, #[trigger] out@[k]),
            decreases out.len() - j,
        {
            j = j + 1;
        }
        proof {
            lemma_insert_by_at(out@, x, folder_before(), j as int);
            assert(rows@.take(i + 1).drop_last() =~= rows@.take(i as int));
            assert(out@.insert(j as int, x) =~= out@.take(j as int).push(x) + out@.skip(j as int));
        }
        out.insert(j, x);
        i = i + 1;
    }
    assert(rows@.take(rows@.len() as int) =~= rows@);
    out
}

fn sorted_attachments(rows: Vec<AttachmentMeta>) -> (r: Vec<AttachmentMeta>)
    ensures
        r@ == sort_by(rows@, attachment_before()),
{
    let mut out: Vec<AttachmentMeta> = Vec::new();
    let mut i: usize = 0;
    while i < rows.len()
        invariant
            i <= rows@.len(),
            out@ == sort_by(rows@.take(i as int), attachment_before()),
        decreases rows.len() - i,
    {
        let x = rows[i].clone();
        let mut j: usize = 0;
        while j < out.len() && !str_less(x.filename.as_str(), out[j].filename.as_str())
            invariant
                j <= out@.len(),
                forall|k: int| 0 <= k < j ==> !attachment_before()(x, #[trigger] out@[k]),
            decreases out.len() - j,
        {
            j = j + 1;
        }
        proof {
            lemma_insert_by_at(out@, x, attachment_before(), j as int);
            assert(rows@.take(i + 1).drop_last() =~= rows@.take(i as int));
            assert(out@.insert(j as int, x) =~= out@.take(j as int).push(x) + out@.skip(j as int));
        }
        out.insert(j, x);
        i = i + 1;
    }
    assert(rows@.take(rows@.len() as int) =~= rows@);
    out
}

/// `rows` newest first, rows of the same time keeping their order.
pub fn sorted_headers(rows: Vec<MessageHeader>) -> (r: Vec<MessageHeader>)
    ensures
        header_views(r@) == sort_by(header_views(rows@), newer_first()),
{
    let ghost hv = header_views(rows@);
    let mut out: Vec<MessageHeader> = Vec::new();
    let mut i: usize = 0;
    while i < rows.len()
        invariant
            hv == header_views(rows@),
            i <= rows@.len(),
            header_views(out@) == sort_by(hv.take(i as int), newer_first()),
        decreases rows.len() - i,
    {
        let x = rows[i].clone();
        let ghost ov = header_views(out@);
        let mut j: usize = 0;
        while j < out.len() && !x.date.is_later_than(&out[j].date)
            invariant
                ov == header_views(out@),
                j <= out@.len(),
                forall|k: int| 0 <= k < j ==> !newer_first()(x@, #[trigger] ov[k]),
            decreases out.len() - j,
        {
            assert(ov[j as int] == out@[j as int]@);
            j = j + 1;
        }
        proof {
            lemma_insert_by_at(ov, x@, newer_first(), j as int);
            assert(hv.take(i + 1).drop_last() =~= hv.take(i as int));
            assert(hv.take(i + 1).last() == rows@[i as int]@);
            assert(header_views(out@.insert(j as int, x)) =~= ov.take(j as int).push(x@) + ov.skip(j as int));
        }
        out.insert(j, x);
        i = i + 1;
    }
    assert(hv.take(rows@.len() as int) =~= hv);
    out
}

fn accounts_except(rows: &Vec<Account>, id: &str) -> (r: Vec<Account>)
    ensures
        r@ == rows@.filter(|a: Account| a.id@ != id@),
{
    let ghost p = |a: Account| a.id@ != id@;
    let mut out: Vec<Account> = Vec::new();
    let mut i: usize = 0;
    while i < rows.len()
        invariant
            p == (|a: Account| a.id@ != id@),
            i <= rows@.len(),
            out@ == rows@.take(i as int).filter(p),
        decreases rows.len() - i,
    {
        proof {
            assert(rows@.take(i + 1) =~= rows@.take(i as int).push(rows@[i as int]));
            rows@.take(i as int).lemma_filter_push(rows@[i as int], p);
        }
        if !str_eq(rows[i].id.as_str(), id) {
            out.push(rows[i].clone());
        }
        i = i + 1;
    }
    assert(rows@.take(rows@.len() as int) =~= rows@);
    out
}

fn folders_except(rows: &Vec<Folder>, id: &str) -> (r: Vec<Folder>)
    ensures
        r@ == rows@.filter(|f: Folder| f.account_id@ != id@),
{
    let ghost p = |f: Folder| f.account_id@ != id@;
    let mut out: Vec<Folder> = Vec::new();
    let mut i: usize = 0;
    while i < rows.len()
        invariant
            p == (|f: Folder| f.account_id@ != id@),
            i <= rows@.len(),
            out@ == rows@.take(i as int).filter(p),
        decreases rows.len() - i,
    {
        proof {
            assert(rows@.take(i + 1) =~= rows@.take(i as int).push(rows@[i as int]));
            rows@.take(i as int).lemma_filter_push(rows@[i as int], p);
        }
        if !str_eq(rows[i].account_id.as_str(), id) {
            out.push(rows[i].clone());
        }
        i = i + 1;
    }
    assert(rows@.take(rows@.len() as int) =~= rows@);
    out
}

fn headers_except(rows: &Vec<MessageHeader>, id: &str) -> (r: Vec<MessageHeader>)
    ensures
        header_views(r@) == header_views(rows@).filter(|h: HeaderView| h.account_id@ != id@),
{
    let ghost p = |h: HeaderView| h.account_id@ != id@;
    let ghost hv = header_views(rows@);
    let mut out: Vec<MessageHeader> = Vec::new();
    let mut i: usize = 0;
    while i < rows.len()
        invariant
            p == (|h: HeaderView| h.account_id@ != id@),
            hv == header_views(rows@),
            i <= rows@.len(),
            header_views(out@) == hv.take(i as int).filter(p),
        decreases rows.len() - i,
    {
        proof {
            assert(hv[i as int] == rows@[i as int]@);
            assert(hv.take(i + 1) =~= hv.take(i as int).push(hv[i as int]));
            hv.take(i as int).lemma_filter_push(hv[i as int], p);
        }
        if !str_eq(rows[i].account_id.as_str(), id) {
            let ghost before = header_views(out@);
            out.push(rows[i].clone());
            assert(header_views(out@) =~= before.push(hv[i as int]));
        }
        i = i + 1;
    }
    assert(hv.take(rows@.len() as int) =~= hv);
    out
}

fn bodies_except(rows: &Vec<BodyRow>, id: &str) -> (r: Vec<BodyRow>)
    ensures
        r@ == rows@.filter(|b: BodyRow| b.account_id@ != id@),
{
    let ghost p = |b: BodyRow| b.account_id@ != id@;
    let mut out: Vec<BodyRow> = Vec::new();
    let mut i: usize = 0;
    while i < rows.len()
        invariant
            p == (|b: BodyRow| b.account_id@ != id@),
            i <= rows@.len(),
            out@ == rows@.take(i as int).filter(p),
        decreases rows.len() - i,
    {
        proof {
            assert(rows@.take(i + 1) =~= rows@.take(i as int).push(rows@[i as int]));
            rows@.take(i as int).lemma_filter_push(rows@[i as int], p);
        }
        if !str_eq(rows[i].account_id.as_str(), id) {
            out.push(rows[i].clone());
        }
        i = i + 1;
    }
    assert(rows@.take(rows@.len() as int) =~= rows@);
    out
}

fn attachments_except(rows: &Vec<AttachmentMeta>, id: &str) -> (r: Vec<AttachmentMeta>)
    ensures
        r@ == rows@.filter(|a: AttachmentMeta| a.account_id@ != id@),
{
    let ghost p = |a: AttachmentMeta| a.account_id@ != id@;
    let mut out: Vec<AttachmentMeta> = Vec::new();
    let mut i: usize = 0;
    while i < rows.len()
        invariant
            p == (|a: AttachmentMeta| a.account_id@ != id@),
            i <= rows@.len(),
            out@ == rows@.take(i as int).filter(p),
        decreases rows.len() - i,
    {
        proof {
            assert(rows@.take(i + 1) =~= rows@.take(i as int).push(rows@[i as int]));
            rows@.take(i as int).lemma_filter_push(rows@[i as int], p);
        }
        if !str_eq(rows[i].account_id.as_str(), id) {
            out.push(rows[i].clone());
        }
        i = i + 1;
    }
    assert(rows@.take(rows@.len() as int) =~= rows@);
    out
}

fn accounts_valid(rows: &Vec<Account>) -> (b: bool)
    ensures
        b == (unique_by(rows@, same_account_id()) && unique_by(rows@, both_default())),
{
    let n = rows.len();
    let mut i: usize = 0;
    while i < n
        invariant
            n == rows@.len(),
            i <= n,
            forall|x: int, y: int| 0 <= x < i && 0 <= y < n && x != y ==> !same_account_id()(#[trigger] rows@[x], #[trigger] rows@[y]) && !both_default()(rows@[x], rows@[y]),
        decreases n - i,
    {
        let mut j: usize = 0;
        while j < n
            invariant
                n == rows@.len(),
                i < n,
                j <= n,
                forall|x: int, y: int| 0 <= x < i && 0 <= y < n && x != y ==> !same_account_id()(#[trigger] rows@[x], #[trigger] rows@[y]) && !both_default()(rows@[x], rows@[y]),
                forall|y: int| 0 <= y < j && y != i ==> !same_account_id()(rows@[i as int], #[trigger] rows@[y]) && !both_default()(rows@[i as int], rows@[y]),
            decreases n - j,
        {
            if j != i && (str_eq(rows[i].id.as_str(), rows[j].id.as_str()) || (rows[i].is_default_sender && rows[j].is_default_sender)) {
                assert(same_account_id()(rows@[i as int], rows@[j as int]) || both_default()(rows@[i as int], rows@[j as int]));
                return false;
            }
            j = j + 1;
        }
        i = i + 1;
    }
    true
}

fn folders_valid(rows: &Vec<Folder>) -> (b: bool)
    ensures
        b == unique_by(rows@, same_folder_key()),
{
    let n = rows.len();
    let mut i: usize = 0;
    while i < n
        invariant
            n == rows@.len(),
            i <= n,
            forall|x: int, y: int| 0 <= x < i && 0 <= y < n && x != y ==> !same_folder_key()(#[trigger] rows@[x], #[trigger] rows@[y]),
        decreases n - i,
    {
        let mut j: usize = 0;
        while j < n
            invariant
                n == rows@.len(),
                i < n,
                j <= n,
                forall|x: int, y: int| 0 <= x < i && 0 <= y < n && x != y ==> !same_folder_key()(#[trigger] rows@[x], #[trigger] rows@[y]),
                forall|y: int| 0 <= y < j && y != i ==> !same_folder_key()(rows@[i as int], #[trigger] rows@[y]),
            decreases n - j,
        {
            if j != i && str_eq(rows[i].account_id.as_str(), rows[j].account_id.as_str()) && str_eq(rows[i].path.as_str(), rows[j].path.as_str()) {
                assert(same_folder_key()(rows@[i as int], rows@[j as int]));
                return false;
            }
            j = j + 1;
        }
        i = i + 1;
    }
    true
}

fn headers_valid(rows: &Vec<MessageHeader>) -> (b: bool)
    ensures
        b == unique_by(header_views(rows@), same_header_key()),
{
    let ghost hv = header_views(rows@);
    let n = rows.len();
    let mut i: usize = 0;
    while i < n
        invariant
            hv == header_views(rows@),
            n == rows@.len(),
            i <= n,
            forall|x: int, y: int| 0 <= x < i && 0 <= y < n && x != y ==> !same_header_key()(#[trigger] hv[x], #[trigger] hv[y]),
        decreases n - i,
    {
        let mut j: usize = 0;
        while j < n
            invariant
                hv == header_views(rows@),
                n == rows@.len(),
                i < n,
                j <= n,
                forall|x: int, y: int| 0 <= x < i && 0 <= y < n && x != y ==> !same_header_key()(#[trigger] hv[x], #[trigger] hv[y]),
                forall|y: int| 0 <= y < j && y != i ==> !same_header_key()(hv[i as int], #[trigger] hv[y]),
            decreases n - j,
        {
            assert(hv[i as int] == rows@[i as int]@ && hv[j as int] == rows@[j as int]@);
            if j != i && str_eq(rows[i].account_id.as_str(), rows[j].account_id.as_str()) && str_eq(rows[i].folder_path.as_str(), rows[j].folder_path.as_str()) && rows[i].uid == rows[j].uid {
                assert(same_header_key()(hv[i as int], hv[j as int]));
                return false;
            }
            j = j + 1;
        }
        i = i + 1;
    }
    true
}

fn bodies_valid(rows: &Vec<BodyRow>) -> (b: bool)
    ensures
        b == unique_by(rows@, same_body_key()),
{
    let n = rows.len();
    let mut i: usize = 0;
    while i < n
        invariant
            n == rows@.len(),
            i <= n,
            forall|x: int, y: int| 0 <= x < i && 0 <= y < n && x != y ==> !same_body_key()(#[trigger] rows@[x], #[trigger] rows@[y]),
        decreases n - i,
    {
        let mut j: usize = 0;
        while j < n
            invariant
                n == rows@.len(),
                i < n,
                j <= n,
                forall|x: int, y: int| 0 <= x < i && 0 <= y < n && x != y ==> !same_body_key()(#[trigger] rows@[x], #[trigger] rows@[y]),
                forall|y: int| 0 <= y < j && y != i ==> !same_body_key()(rows@[i as int], #[trigger] rows@[y]),
            decreases n - j,
        {
            if j != i && str_eq(rows[i].account_id.as_str(), rows[j].account_id.as_str()) && str_eq(rows[i].folder_path.as_str(), rows[j].folder_path.as_str()) && rows[i].uid == rows[j].uid {
                assert(same_body_key()(rows@[i as int], rows@[j as int]));
                return false;
            }
            j = j + 1;
        }
        i = i + 1;
    }
    true
}

fn attachments_valid(rows: &Vec<AttachmentMeta>) -> (b: bool)
    ensures
        b == unique_by(rows@, same_attachment_key()),
{
    let n = rows.len();
    let mut i: usize = 0;
    while i < n
        invariant
            n == rows@.len(),
            i <= n,
            forall|x: int, y: int| 0 <= x < i && 0 <= y < n && x != y ==> !same_attachment_key()(#[trigger] rows@[x], #[trigger] rows@[y]),
        decreases n - i,
    {
        let mut j: usize = 0;
        while j < n
            invariant
                n == rows@.len(),
                i < n,
                j <= n,
                forall|x: int, y: int| 0 <= x < i && 0 <= y < n && x != y ==> !same_attachment_key()(#[trigger] rows@[x], #[trigger] rows@[y]),
                forall|y: int| 0 <= y < j && y != i ==> !same_attachment_key()(rows@[i as int], #[trigger] rows@[y]),
            decreases n - j,
        {
            if j != i && str_eq(rows[i].account_id.as_str(), rows[j].account_id.as_str()) && str_eq(rows[i].folder_path.as_str(), rows[j].folder_path.as_str())
                && rows[i].uid == rows[j].uid && str_eq(rows[i].part_id.as_str(), rows[j].part_id.as_str()) {
                assert(same_attachment_key()(rows@[i as int], rows@[j as int]));
                return false;
            }
            j = j + 1;
        }
        i = i + 1;
    }
    true
}

/// The account found under `id` has that id.
pub proof fn lemma_find_account_has_id(accounts: Seq<Account>, id: Seq<char>)
    ensures
        find_account(accounts, id) matches Some(a) ==> a.id@ == id,
{
    lemma_first_index(accounts, account_has_id(id));
}

/// Clearing the last error of an account keeps every account's id, so the
/// same accounts exist afterwards.
pub proof fn lemma_error_cleared_keeps_ids(accounts: Seq<Account>, id: Seq<char>, other: Seq<char>)
    ensures
        has_account(crate::commands::error_cleared(accounts, id), other) == has_account(accounts, other),
{
    let c = crate::commands::error_cleared(accounts, id);
    let p = account_has_id(other);
    lemma_first_index(accounts, p);
    lemma_first_index(c, p);
    assert(forall|k: int| 0 <= k < accounts.len() ==> #[trigger] c[k].id@ == accounts[k].id@);
    if has_account(accounts, other) {
        let i = first_index(accounts, p);
        assert forall|k: int| 0 <= k < i implies !p(#[trigger] c[k]) by {
            assert(!p(accounts[k]));
        }
        lemma_first_index_at(c, p, i);
    } else {
        assert forall|k: int| 0 <= k < c.len() implies !p(#[trigger] c[k]) by {
            assert(!p(accounts[k]));
        }
        lemma_first_index_none(c, p);
    }
}

/// Reading an account back after saving it gives what was saved, but for
/// the default-sender mark, which a saved default keeps.
pub proof fn lemma_account_read_after_save(accounts: Seq<Account>, a: Account)
    ensures
        find_account(accounts_after_upsert(accounts, a), a.id@) matches Some(b) && b == (Account {
            is_default_sender: b.is_default_sender,
            ..a
        }) && (a.is_default_sender ==> b.is_default_sender),
{
    let p = account_has_id(a.id@);
    let cleared = if a.is_default_sender {
        accounts.map_values(|r: Account| without_default(r))
    } else {
        accounts
    };
    assert(forall|k: int| 0 <= k < cleared.len() ==> #[trigger] cleared[k].id@ == accounts[k].id@);
    lemma_first_index(cleared, p);
    let i = first_index(cleared, p);
    let saved = upsert(cleared, a, p);
    let pos = if i >= 0 { i } else { cleared.len() as int };
    assert(saved[pos] == a);
    assert forall|k: int| 0 <= k < pos implies !p(#[trigger] saved[k]) by {
        assert(saved[k] == cleared[k]);
    }
    lemma_first_index_at(saved, p, pos);
    if first_index(saved, account_is_default()) < 0 {
        let f = saved.map_values(|r: Account| with_default_if(r, a.id@));
        assert forall|k: int| 0 <= k < pos implies !p(#[trigger] f[k]) by {
            assert(f[k].id@ == saved[k].id@);
        }
        assert(f[pos] == with_default_if(saved[pos], a.id@));
        lemma_first_index_at(f, p, pos);
    }
}

// ---------------------------------------------------------------------------
// Laws

/// Saving an account adds a row exactly when no account has its id.
pub proof fn lemma_account_count_after_save(accounts: Seq<Account>, a: Account)
    ensures
        accounts_after_upsert(accounts, a).len() == accounts.len() + if has_account(accounts, a.id@) {
            0int
        } else {
            1int
        },
{
    let p = account_has_id(a.id@);
    let cleared = if a.is_default_sender {
        accounts.map_values(|r: Account| without_default(r))
    } else {
        accounts
    };
    assert forall|k: int| 0 <= k < accounts.len() implies p(#[trigger] accounts[k]) == p(cleared[k]) by {
        assert(cleared[k].id == accounts[k].id);
    }
    crate::seqs::lemma_first_index_same(accounts, cleared, p);
    lemma_first_index(cleared, p);
    let saved = upsert(cleared, a, p);
    assert(cleared.len() == accounts.len());
    assert(saved.len() == cleared.len() + if first_index(cleared, p) >= 0 { 0int } else { 1int });
    let f = saved.map_values(|r: Account| with_default_if(r, a.id@));
    assert(f.len() == saved.len());
}


/// Saving an account leaves exactly one default sender: the saved account
/// when it is marked as the default, and otherwise the earlier default (or,
/// when there was none, the saved account).
pub proof fn lemma_save_keeps_one_default(v: StoreView, a: Account)
    requires
        tables_wf(v),
    ensures
        ({
            let after = accounts_after_upsert(v.accounts, a);
            &&& find_default(after) is Some
            &&& a.is_default_sender ==> find_default(after) == find_account(after, a.id@)
            &&& unique_by(after, both_default())
        }),
{
    lemma_accounts_after_upsert_wf(v, a);
    lemma_account_read_after_save(v.accounts, a);
    let after = accounts_after_upsert(v.accounts, a);
    let p = account_has_id(a.id@);
    lemma_first_index(after, p);
    lemma_first_index(after, account_is_default());
    let i = first_index(after, p);
    assert(after[i].is_default_sender || !a.is_default_sender);
    let cleared = if a.is_default_sender {
        v.accounts.map_values(|r: Account| without_default(r))
    } else {
        v.accounts
    };
    let saved = upsert(cleared, a, p);
    lemma_first_index(saved, account_is_default());
    if first_index(saved, account_is_default()) < 0 {
        let f = saved.map_values(|r: Account| with_default_if(r, a.id@));
        assert(f[i] == with_default_if(saved[i], a.id@));
        assert(after[i].is_default_sender);
    }
    if a.is_default_sender {
        assert(after[i].is_default_sender);
        assert(first_index(after, account_is_default()) == i) by {
            assert forall|k: int| 0 <= k < i implies !account_is_default()(#[trigger] after[k]) by {
                assert(!both_default()(after[k], after[i]));
            }
            lemma_first_index_at(after, account_is_default(), i);
        }
    } else {
        assert(account_is_default()(after[first_index(saved, account_is_default())]) || account_is_default()(after[i]));
    }
}

/// After an account is saved, the account list holds exactly one default
/// sender, and an account saved as the default is the default account.
pub proof fn lemma_account_list_one_default(v: StoreView, a: Account)
    requires
        tables_wf(v),
    ensures
        ({
            let after = accounts_after_upsert(v.accounts, a);
            &&& sort_by(after, account_before()).filter(account_is_default()).len() == 1
            &&& a.is_default_sender ==> (find_default(after) matches Some(d) && d.id@ == a.id@)
        }),
{
    let after = accounts_after_upsert(v.accounts, a);
    lemma_save_keeps_one_default(v, a);
    lemma_find_account_has_id(after, a.id@);
    lemma_first_index(after, account_is_default());
    let i = first_index(after, account_is_default());
    assert forall|k: int| 0 <= k < after.len() && k != i implies !account_is_default()(#[trigger] after[k]) by {
        assert(!both_default()(after[k], after[i]));
    }
    crate::seqs::lemma_filter_len_one(after, account_is_default(), i);
    crate::seqs::lemma_sort_by_filter_len(after, account_before(), account_is_default());
}

/// Whether an account other than `id` is the default sender.
pub open spec fn other_default(accounts: Seq<Account>, id: Seq<char>) -> bool {
    exists|k: int| 0 <= k < accounts.len() && (#[trigger] accounts[k]).is_default_sender && accounts[k].id@ != id
}

/// Reading an account back after saving it gives the saved account, marked
/// as the default sender exactly when it was saved as one or no other
/// account was the default; saving it changes no other id's presence.
pub proof fn lemma_account_default_after_save(v: StoreView, a: Account, x: Seq<char>)
    requires
        tables_wf(v),
    ensures
        ({
            let after = accounts_after_upsert(v.accounts, a);
            &&& find_account(after, a.id@) matches Some(b) && b == (Account {
                is_default_sender: b.is_default_sender,
                ..a
            }) && b.is_default_sender == (a.is_default_sender || !other_default(v.accounts, a.id@))
            &&& x != a.id@ ==> has_account(after, x) == has_account(v.accounts, x)
        }),
{
    let accounts = v.accounts;
    let after = accounts_after_upsert(accounts, a);
    let p = account_has_id(a.id@);
    let cleared = if a.is_default_sender {
        accounts.map_values(|r: Account| without_default(r))
    } else {
        accounts
    };
    let saved = upsert(cleared, a, p);
    lemma_account_read_after_save(accounts, a);
    lemma_first_index(cleared, p);
    lemma_first_index(saved, account_is_default());
    lemma_first_index(after, p);
    lemma_upsert_read(cleared, a, p);
    let pos = first_index(cleared, p);
    assert(forall|k: int| 0 <= k < cleared.len() ==> #[trigger] cleared[k].id@ == accounts[k].id@);
    if !a.is_default_sender {
        if other_default(accounts, a.id@) {
            let k = choose|k: int| 0 <= k < accounts.len() && (#[trigger] accounts[k]).is_default_sender && accounts[k].id@ != a.id@;
            assert(saved[k] == accounts[k]);
            assert(first_index(saved, account_is_default()) >= 0);
            assert(after == saved);
        } else {
            assert forall|k: int| 0 <= k < saved.len() implies !account_is_default()(#[trigger] saved[k]) by {
                if pos >= 0 && k == pos {
                } else if k < accounts.len() {
                    assert(saved[k] == accounts[k]);
                    if accounts[k].is_default_sender {
                        assert(accounts[k].id@ == a.id@);
                        if pos >= 0 {
                            assert(!same_account_id()(accounts[k], accounts[pos]));
                        } else {
                            assert(p(cleared[k]));
                        }
                    }
                }
            }
            assert(first_index(saved, account_is_default()) < 0);
            let j = first_index(after, p);
            assert(after[j] == with_default_if(saved[j], a.id@));
        }
    }
    if x != a.id@ {
        let q = account_has_id(x);
        lemma_first_index(accounts, q);
        lemma_first_index(after, q);
        assert forall|k: int| 0 <= k < after.len() implies #[trigger] after[k].id@ == (if k < accounts.len() {
            accounts[k].id@
        } else {
            a.id@
        }) by {
            if first_index(saved, account_is_default()) < 0 {
                assert(after[k] == with_default_if(saved[k], a.id@));
            }
            if pos >= 0 && k == pos {
                assert(accounts[k].id@ == a.id@);
            }
        }
        if has_account(accounts, x) {
            let k = first_index(accounts, q);
            assert(q(after[k]));
        }
        if has_account(after, x) {
            let k = first_index(after, q);
            assert(q(accounts[k]));
        }
    }
}

/// The account list puts the default sender before every other account,
/// and among accounts with the same mark, one whose display name sorts
/// before another's comes before it, whatever their addresses or ids.
pub proof fn lemma_account_list_order(accounts: Seq<Account>, l: Seq<Account>)
    requires
        l == sort_by(accounts, account_before()),
    ensures
        forall|i: int, j: int|
            0 <= i < l.len() && 0 <= j < l.len() && (#[trigger] l[i]).is_default_sender && !(#[trigger] l[j]).is_default_sender
                ==> i < j,
        forall|i: int, j: int|
            0 <= i < l.len() && 0 <= j < l.len() && (#[trigger] l[i]).is_default_sender == (#[trigger] l[j]).is_default_sender
                && seq_less(l[i].display_name@, l[j].display_name@) ==> i < j,
{
    lemma_account_list_sorted(accounts);
    crate::text::lemma_seq_less_order();
    assert forall|i: int, j: int|
        0 <= i < l.len() && 0 <= j < l.len() && (#[trigger] l[i]).is_default_sender && !(#[trigger] l[j]).is_default_sender
        implies i < j by {
        if j < i {
            assert(!account_before()(l[i], l[j]));
        }
    }
    assert forall|i: int, j: int|
        0 <= i < l.len() && 0 <= j < l.len() && (#[trigger] l[i]).is_default_sender == (#[trigger] l[j]).is_default_sender
            && seq_less(l[i].display_name@, l[j].display_name@) implies i < j by {
        if j < i {
            assert(!account_before()(l[i], l[j]));
        }
    }
}

/// A folder list puts the inbox, then sent mail, then the rest, and among
/// folders of the same rank, one whose display name sorts before another's
/// comes before it, whatever their paths.
pub proof fn lemma_folder_list_order(v: StoreView, account_id: Seq<char>, l: Seq<Folder>)
    requires
        l == folder_list(v, account_id),
    ensures
        forall|i: int, j: int|
            0 <= i < l.len() && 0 <= j < l.len() && folder_rank(#[trigger] l[i]) < folder_rank(#[trigger] l[j]) ==> i < j,
        forall|i: int, j: int|
            0 <= i < l.len() && 0 <= j < l.len() && folder_rank(#[trigger] l[i]) == folder_rank(#[trigger] l[j])
                && seq_less(l[i].display_name@, l[j].display_name@) ==> i < j,
{
    lemma_folder_list_sorted(v, account_id);
    crate::text::lemma_seq_less_order();
    assert forall|i: int, j: int|
        0 <= i < l.len() && 0 <= j < l.len() && folder_rank(#[trigger] l[i]) < folder_rank(#[trigger] l[j]) implies i < j by {
        if j < i {
            assert(!folder_before()(l[i], l[j]));
        }
    }
    assert forall|i: int, j: int|
        0 <= i < l.len() && 0 <= j < l.len() && folder_rank(#[trigger] l[i]) == folder_rank(#[trigger] l[j])
            && seq_less(l[i].display_name@, l[j].display_name@) implies i < j by {
        if j < i {
            assert(!folder_before()(l[i], l[j]));
        }
    }
}

/// Updating an account stores every editable field of the input (text
/// trimmed) in place of the previous value, keeps the id, the credential key
/// and the last error, and leaves an account updated as the default sender
/// the default sender.
pub proof fn lemma_update_stores_input(accounts: Seq<Account>, prev: Account, input: AccountInput, u: Account)
    requires
        account_updated(u, prev, input),
    ensures
        find_account(accounts_after_upsert(accounts, u), prev.id@) matches Some(a) && {
            &&& a.id == prev.id
            &&& a.credential_key == prev.credential_key
            &&& a.last_error == prev.last_error
            &&& a.display_name@ == trim_seq(input.display_name@)
            &&& a.email@ == trim_seq(input.email@)
            &&& a.imap_host@ == trim_seq(input.imap_host@)
            &&& a.imap_port == input.imap_port
            &&& a.imap_security == input.imap_security
            &&& a.smtp_host@ == trim_seq(input.smtp_host@)
            &&& a.smtp_port == input.smtp_port
            &&& a.smtp_security == input.smtp_security
            &&& a.username@ == trim_seq(input.username@)
            &&& a.sync_enabled == input.sync_enabled
            &&& input.is_default_sender ==> a.is_default_sender
        },
{
    lemma_account_read_after_save(accounts, u);
}

/// The account list holds every account, as often as it is stored, with the
/// default sender first and then by name.
pub proof fn lemma_account_list_sorted(accounts: Seq<Account>)
    ensures
        sorted_by(sort_by(accounts, account_before()), account_before()),
        sort_by(accounts, account_before()).to_multiset() == accounts.to_multiset(),
{
    crate::seqs::lemma_sort_by_permutation(accounts, account_before());
    crate::text::lemma_seq_less_order();
    let b = account_before();
    assert forall|x: Account, y: Account| #[trigger] b(x, y) implies !b(y, x) by {
        if x.is_default_sender == y.is_default_sender {
            assert(!(seq_less(x.display_name@, y.display_name@) && seq_less(y.display_name@, x.display_name@))) by {
                if seq_less(x.display_name@, y.display_name@) && seq_less(y.display_name@, x.display_name@) {
                    assert(seq_less(x.display_name@, x.display_name@));
                }
            }
        }
    }
    assert forall|x: Account, y: Account, z: Account| #![trigger b(x, y), b(y, z)] !b(x, y) && !b(y, z) implies !b(x, z) by {
        let (nx, ny, nz) = (x.display_name@, y.display_name@, z.display_name@);
        if b(x, z) && x.is_default_sender == z.is_default_sender {
            assert(seq_less(nx, nz));
            if y.is_default_sender == x.is_default_sender {
                assert(seq_less(nx, ny) || seq_less(ny, nx) || nx == ny);
                assert(seq_less(ny, nz) || seq_less(nz, ny) || ny == nz);
                if seq_less(ny, nx) && seq_less(nz, ny) {
                    assert(seq_less(nz, nx));
                    assert(seq_less(nx, nx));
                }
                if seq_less(ny, nx) && ny == nz {
                    assert(seq_less(nz, nx));
                    assert(seq_less(nx, nx));
                }
                if nx == ny && seq_less(nz, ny) {
                    assert(seq_less(nx, nx));
                }
            }
        }
    }
    assert(strict_weak_order(account_before()));
    lemma_sort_by_sorted(accounts, account_before());
}

/// The folder list of an account holds exactly that account's folders: the
/// inbox first, then sent mail, then the rest, each group by display name.
pub proof fn lemma_folder_list_sorted(v: StoreView, account_id: Seq<char>)
    ensures
        sorted_by(folder_list(v, account_id), folder_before()),
        folder_list(v, account_id).to_multiset() == v.folders.filter(folder_of_account(account_id)).to_multiset(),
{
    let rows = v.folders.filter(folder_of_account(account_id));
    crate::seqs::lemma_sort_by_permutation(rows, folder_before());
    crate::text::lemma_seq_less_order();
    let b = folder_before();
    assert forall|x: Folder, y: Folder| #[trigger] b(x, y) implies !b(y, x) by {
        if folder_rank(x) == folder_rank(y) {
            if seq_less(x.display_name@, y.display_name@) && seq_less(y.display_name@, x.display_name@) {
                assert(seq_less(x.display_name@, x.display_name@));
            }
        }
    }
    assert forall|x: Folder, y: Folder, z: Folder| #![trigger b(x, y), b(y, z)] !b(x, y) && !b(y, z) implies !b(x, z) by {
        let (nx, ny, nz) = (x.display_name@, y.display_name@, z.display_name@);
        if b(x, z) && folder_rank(x) == folder_rank(z) && folder_rank(y) == folder_rank(x) {
            assert(seq_less(nx, ny) || seq_less(ny, nx) || nx == ny);
            assert(seq_less(ny, nz) || seq_less(nz, ny) || ny == nz);
            if seq_less(ny, nx) && seq_less(nz, ny) {
                assert(seq_less(nz, nx));
                assert(seq_less(nx, nx));
            }
            if seq_less(ny, nx) && ny == nz {
                assert(seq_less(nx, nx));
            }
            if nx == ny && seq_less(nz, ny) {
                assert(seq_less(nx, nx));
            }
        }
    }
    assert(strict_weak_order(folder_before()));
    lemma_sort_by_sorted(rows, folder_before());
}

/// After a folder is saved, its account's folder list holds it exactly
/// once, every listed folder of its path is that folder, every listed
/// folder belongs to the account, and the list is in role-then-name order.
pub proof fn lemma_saved_folder_listed_once(v: StoreView, f: Folder)
    requires
        tables_wf(v),
    ensures
        ({
            let after = StoreView { folders: upsert(v.folders, f, folder_has_key(f.account_id@, f.path@)), ..v };
            let list = folder_list(after, f.account_id@);
            &&& list.to_multiset().count(f) == 1
            &&& forall|j: int| 0 <= j < list.len() && (#[trigger] list[j]).path@ == f.path@ ==> list[j] == f
            &&& forall|j: int| 0 <= j < list.len() ==> (#[trigger] list[j]).account_id@ == f.account_id@
            &&& sorted_by(list, folder_before())
        }),
{
    broadcast use vstd::seq_lib::group_to_multiset_ensures;

    let key = folder_has_key(f.account_id@, f.path@);
    let table = upsert(v.folders, f, key);
    let after = StoreView { folders: table, ..v };
    let q = folder_of_account(f.account_id@);
    let rows = table.filter(q);
    let list = folder_list(after, f.account_id@);
    assert(key =~= (|y: Folder| same_folder_key()(f, y)));
    lemma_upsert_unique(v.folders, f, same_folder_key());
    lemma_upsert_read(v.folders, f, key);
    lemma_first_index(table, key);
    lemma_filter_unique(table, q, same_folder_key());
    lemma_folder_list_sorted(after, f.account_id@);
    lemma_sort_by_elements(rows, folder_before());
    let i = first_index(table, key);
    assert(table[i] == f);
    table.lemma_filter_contains(q, i);
    assert(rows.no_duplicates()) by {
        assert forall|a: int, b: int| 0 <= a < rows.len() && 0 <= b < rows.len() && a != b implies rows[a] != rows[b] by {
            if rows[a] == rows[b] {
                assert(same_folder_key()(rows[a], rows[b]));
            }
        }
    }
    rows.lemma_multiset_has_no_duplicates();
    assert(rows.to_multiset().contains(f));
    assert forall|j: int| 0 <= j < list.len() implies (#[trigger] list[j]).account_id@ == f.account_id@
        && (list[j].path@ == f.path@ ==> list[j] == f) by {
        let g = list[j];
        assert(rows.contains(g));
        let k = choose|k: int| 0 <= k < rows.len() && rows[k] == g;
        table.lemma_filter_pred(q, k);
        rows.lemma_filter_contains_rev(q, g);
        let m = choose|m: int| 0 <= m < table.len() && table[m] == g;
        if g.path@ == f.path@ && m != i {
            assert(same_folder_key()(table[m], table[i]));
        }
    }
}

/// A message list is ordered newest first, holds at most
/// `MESSAGE_LIST_LIMIT` messages, and holds only messages of the asked
/// folder and account; the unified inbox (`enabled_only`) holds only
/// messages of accounts with synchronisation switched on.
pub proof fn lemma_message_list_selects(v: StoreView, folder: Option<Seq<char>>, account: Option<Seq<char>>, enabled_only: bool)
    ensures
        sorted_by(message_list(v, folder, account, enabled_only), newer_first()),
        message_list(v, folder, account, enabled_only).len() <= MESSAGE_LIST_LIMIT,
        forall|j: int| 0 <= j < message_list(v, folder, account, enabled_only).len() ==> {
            let h = #[trigger] message_list(v, folder, account, enabled_only)[j];
            &&& (folder matches Some(f) ==> h.folder_path@ == f)
            &&& (account matches Some(a) ==> h.account_id@ == a)
            &&& (enabled_only ==> account_enabled(v.accounts, h.account_id@))
        },
{
    let p = header_selected(v.accounts, folder, account, enabled_only);
    let jn = |h: HeaderView| joined_header(v.accounts, h);
    let rows = v.headers.filter(p).map_values(jn);
    assert(strict_weak_order(newer_first()));
    lemma_sort_by_sorted(rows, newer_first());
    let sorted = sort_by(rows, newer_first());
    lemma_limit_sorted(sorted, MESSAGE_LIST_LIMIT as nat, newer_first());
    lemma_sort_by_elements(rows, newer_first());
    v.headers.filter_lemma(p);
    assert forall|j: int| 0 <= j < message_list(v, folder, account, enabled_only).len() implies {
        let h = #[trigger] message_list(v, folder, account, enabled_only)[j];
        &&& (folder matches Some(f) ==> h.folder_path@ == f)
        &&& (account matches Some(a) ==> h.account_id@ == a)
        &&& (enabled_only ==> account_enabled(v.accounts, h.account_id@))
    } by {
        let h = message_list(v, folder, account, enabled_only)[j];
        assert(h == sorted[j]);
        assert(rows.contains(h));
        let k = choose|k: int| 0 <= k < rows.len() && rows[k] == h;
        assert(p(v.headers.filter(p)[k]));
        assert(h.account_id == v.headers.filter(p)[k].account_id);
    }
}

/// A message list holds the newest selected messages: all of them when
/// there are at most `MESSAGE_LIST_LIMIT`, otherwise that many, and no
/// selected message newer than the last one listed is left out.
pub proof fn lemma_message_list_keeps_newest(v: StoreView, folder: Option<Seq<char>>, account: Option<Seq<char>>, enabled_only: bool)
    ensures
        ({
            let rows = v.headers.filter(header_selected(v.accounts, folder, account, enabled_only)).map_values(
                |h: HeaderView| joined_header(v.accounts, h),
            );
            let list = message_list(v, folder, account, enabled_only);
            &&& list.len() == if rows.len() <= MESSAGE_LIST_LIMIT { rows.len() } else { MESSAGE_LIST_LIMIT as nat }
            &&& rows.len() <= MESSAGE_LIST_LIMIT ==> list.to_multiset() == rows.to_multiset()
            &&& forall|r: HeaderView| #[trigger] rows.contains(r) && list.len() > 0 && later_than(r.date, list.last().date)
                ==> list.contains(r)
        }),
{
    broadcast use vstd::seq_lib::group_to_multiset_ensures;

    let rows = v.headers.filter(header_selected(v.accounts, folder, account, enabled_only)).map_values(
        |h: HeaderView| joined_header(v.accounts, h),
    );
    let sorted = sort_by(rows, newer_first());
    let list = message_list(v, folder, account, enabled_only);
    crate::seqs::lemma_sort_by_len(rows, newer_first());
    crate::seqs::lemma_sort_by_permutation(rows, newer_first());
    assert(strict_weak_order(newer_first()));
    lemma_sort_by_sorted(rows, newer_first());
    assert(list == limit(sorted, MESSAGE_LIST_LIMIT as nat));
    assert forall|r: HeaderView| #[trigger] rows.contains(r) && list.len() > 0 && later_than(r.date, list.last().date)
        implies list.contains(r) by {
        assert(rows.to_multiset().count(r) > 0);
        assert(sorted.to_multiset().count(r) > 0);
        assert(sorted.contains(r));
        let k = choose|k: int| 0 <= k < sorted.len() && sorted[k] == r;
        if k >= list.len() {
            let last = list.len() - 1;
            assert(list.last() == sorted[last]);
            assert(!newer_first()(sorted[k], sorted[last]));
            assert(false);
        }
        assert(list[k] == r);
    }
}

/// After removing an account, nothing stored names it.
pub proof fn lemma_removed_account_leaves_nothing(v: StoreView, id: Seq<char>)
    ensures
        find_account(without_account(v, id).accounts, id) is None,
        forall|j: int| 0 <= j < without_account(v, id).folders.len() ==> (#[trigger] without_account(v, id).folders[j]).account_id@ != id,
        forall|j: int| 0 <= j < without_account(v, id).headers.len() ==> (#[trigger] without_account(v, id).headers[j]).account_id@ != id,
        forall|j: int| 0 <= j < without_account(v, id).bodies.len() ==> (#[trigger] without_account(v, id).bodies[j]).account_id@ != id,
        forall|j: int| 0 <= j < without_account(v, id).attachments.len() ==> (#[trigger] without_account(v, id).attachments[j]).account_id@ != id,
{
    let w = without_account(v, id);
    v.accounts.filter_lemma(|a: Account| a.id@ != id);
    v.folders.filter_lemma(|f: Folder| f.account_id@ != id);
    v.headers.filter_lemma(|h: HeaderView| h.account_id@ != id);
    v.bodies.filter_lemma(|b: BodyRow| b.account_id@ != id);
    v.attachments.filter_lemma(|a: AttachmentMeta| a.account_id@ != id);
    lemma_first_index(w.accounts, account_has_id(id));
}

/// After a body is saved, the cached body under its key is the saved one.
pub proof fn lemma_body_read_after_save(bodies: Seq<BodyRow>, b: BodyView)
    ensures
        find_body(upsert(bodies, body_row(b), body_has_key(b.account_id@, b.folder_path@, b.uid)), b.account_id@, b.folder_path@, b.uid)
            == Some(body_row(b)),
{
    lemma_upsert_read(bodies, body_row(b), body_has_key(b.account_id@, b.folder_path@, b.uid));
}

/// After a folder is saved, the folder under its key is the saved one.
pub proof fn lemma_folder_read_after_save(folders: Seq<Folder>, f: Folder)
    ensures
        ({
            let after = upsert(folders, f, folder_has_key(f.account_id@, f.path@));
            after[first_index(after, folder_has_key(f.account_id@, f.path@))] == f
        }),
{
    lemma_upsert_read(folders, f, folder_has_key(f.account_id@, f.path@));
}

/// After a header is saved, the header under its key is the saved one.
pub proof fn lemma_header_read_after_save(headers: Seq<HeaderView>, h: HeaderView)
    ensures
        ({
            let key = header_has_key(h.account_id@, h.folder_path@, h.uid);
            let after = upsert(headers, h, key);
            &&& first_index(after, key) >= 0
            &&& after[first_index(after, key)] == h
        }),
{
    lemma_upsert_read(headers, h, header_has_key(h.account_id@, h.folder_path@, h.uid));
}

proof fn lemma_save_attachments_keep_order(accounts: Seq<Account>, t: Seq<AttachmentMeta>, atts: Seq<AttachmentMeta>, a: Seq<char>, f: Seq<char>, uid: i64)
    requires
        forall|j: int| 0 <= j < atts.len() ==> attachment_of(a, f, uid)(#[trigger] atts[j]) && has_account(accounts, atts[j].account_id@),
        forall|i: int, j: int| 0 <= i < atts.len() && 0 <= j < atts.len() && i != j ==> (#[trigger] atts[i]).part_id@ != (#[trigger] atts[j]).part_id@,
        forall|k: int, j: int| 0 <= k < t.len() && 0 <= j < atts.len() && attachment_of(a, f, uid)(#[trigger] t[k]) ==> t[k].part_id@ != (#[trigger] atts[j]).part_id@,
    ensures
        save_attachments(accounts, t, atts).1,
        save_attachments(accounts, t, atts).0.filter(attachment_of(a, f, uid)) == t.filter(attachment_of(a, f, uid)) + atts,
    decreases atts.len(),
{
    let p = attachment_of(a, f, uid);
    if atts.len() == 0 {
        assert(t.filter(p) + atts =~= t.filter(p));
    } else {
        let a0 = atts[0];
        let rest = atts.drop_first();
        assert(p(a0));
        assert forall|k: int| 0 <= k < t.len() implies !attachment_same_key(a0)(#[trigger] t[k]) by {
            if attachment_same_key(a0)(t[k]) {
                assert(p(t[k]));
                assert(t[k].part_id@ != atts[0].part_id@);
            }
        }
        lemma_first_index_none(t, attachment_same_key(a0));
        let t2 = upsert(t, a0, attachment_same_key(a0));
        assert(t2 == t.push(a0));
        t.lemma_filter_push(a0, p);
        assert forall|j: int| 0 <= j < rest.len() implies p(#[trigger] rest[j]) && has_account(accounts, rest[j].account_id@) by {
            assert(rest[j] == atts[j + 1]);
        }
        assert forall|i: int, j: int| 0 <= i < rest.len() && 0 <= j < rest.len() && i != j implies (#[trigger] rest[i]).part_id@ != (#[trigger] rest[j]).part_id@ by {
            assert(rest[i] == atts[i + 1] && rest[j] == atts[j + 1]);
        }
        assert forall|k: int, j: int| 0 <= k < t2.len() && 0 <= j < rest.len() && p(#[trigger] t2[k]) implies t2[k].part_id@ != (#[trigger] rest[j]).part_id@ by {
            assert(rest[j] == atts[j + 1]);
            if k < t.len() {
                assert(t2[k] == t[k]);
            } else {
                assert(t2[k] == atts[0]);
            }
        }
        lemma_save_attachments_keep_order(accounts, t2, rest, a, f, uid);
        assert(t.filter(p).push(a0) + rest =~= t.filter(p) + atts);
    }
}

/// Reading a cached body back after saving it gives the saved body, its
/// attachments ordered by file name, when its account exists and its
/// attachments belong to it under distinct part ids.
pub proof fn lemma_cached_body_read_after_save(v: StoreView, b: BodyView)
    requires
        has_account(v.accounts, b.account_id@),
        forall|j: int| 0 <= j < b.attachments.len() ==> attachment_of(b.account_id@, b.folder_path@, b.uid)(#[trigger] b.attachments[j])
            && has_account(v.accounts, b.attachments[j].account_id@),
        forall|i: int, j: int| 0 <= i < b.attachments.len() && 0 <= j < b.attachments.len() && i != j
            ==> (#[trigger] b.attachments[i]).part_id@ != (#[trigger] b.attachments[j]).part_id@,
    ensures
        ({
            let cleared = v.attachments.filter(|x: AttachmentMeta| !attachment_of(b.account_id@, b.folder_path@, b.uid)(x));
            let saved = save_attachments(v.accounts, cleared, b.attachments);
            let after = StoreView {
                bodies: upsert(v.bodies, body_row(b), body_has_key(b.account_id@, b.folder_path@, b.uid)),
                attachments: saved.0,
                ..v
            };
            &&& saved.1
            &&& cached_body_of(after, b.account_id@, b.folder_path@, b.uid) == Some(BodyView {
                attachments: sort_by(b.attachments, attachment_before()),
                ..b
            })
        }),
{
    let p = attachment_of(b.account_id@, b.folder_path@, b.uid);
    let keep = |x: AttachmentMeta| !attachment_of(b.account_id@, b.folder_path@, b.uid)(x);
    let cleared = v.attachments.filter(keep);
    v.attachments.filter_lemma(keep);
    assert forall|k: int| 0 <= k < cleared.len() implies !p(#[trigger] cleared[k]) by {
        assert(keep(cleared[k]));
    }
    assert(cleared.filter(p) =~= Seq::<AttachmentMeta>::empty()) by {
        cleared.filter_lemma(p);
        if cleared.filter(p).len() > 0 {
            assert(p(cleared.filter(p)[0]));
            assert(cleared.filter(p).contains(cleared.filter(p)[0]));
            cleared.lemma_filter_contains_rev(p, cleared.filter(p)[0]);
        }
    }
    lemma_save_attachments_keep_order(v.accounts, cleared, b.attachments, b.account_id@, b.folder_path@, b.uid);
    assert(Seq::<AttachmentMeta>::empty() + b.attachments =~= b.attachments);
    lemma_body_read_after_save(v.bodies, b);
}

proof fn lemma_accounts_after_upsert_wf(v0: StoreView, a: Account)
    requires
        tables_wf(v0),
    ensures
        tables_wf(StoreView { accounts: accounts_after_upsert(v0.accounts, a), ..v0 }),
{
    let before = v0.accounts;
    let cleared = if a.is_default_sender {
        before.map_values(|r: Account| without_default(r))
    } else {
        before
    };
    let saved = upsert(cleared, a, account_has_id(a.id@));
    lemma_first_index(cleared, account_has_id(a.id@));
    lemma_first_index(saved, account_is_default());
    let p = first_index(cleared, account_has_id(a.id@));
    assert(forall|k: int| 0 <= k < cleared.len() ==> #[trigger] cleared[k].id@ == before[k].id@);
    // ids stay unique in `saved`
    assert forall|i: int, j: int|
        0 <= i < saved.len() && 0 <= j < saved.len() && i != j implies #[trigger] saved[i].id@
        != #[trigger] saved[j].id@ by {
        if p < 0 {
            if i == before.len() {
                assert(!account_has_id(a.id@)(cleared[j]));
            } else if j == before.len() {
                assert(!account_has_id(a.id@)(cleared[i]));
            }
        }
    }
    // at most one default in `saved`
    assert forall|i: int, j: int|
        0 <= i < saved.len() && 0 <= j < saved.len() && i != j implies !(
        #[trigger] saved[i].is_default_sender && #[trigger] saved[j].is_default_sender) by {
        if a.is_default_sender {
            if p >= 0 {
                if i != p {
                    assert(!cleared[i].is_default_sender);
                } else {
                    assert(!cleared[j].is_default_sender);
                }
            } else {
                if i != before.len() {
                    assert(!cleared[i].is_default_sender);
                } else {
                    assert(!cleared[j].is_default_sender);
                }
            }
        }
    }
    if first_index(saved, account_is_default()) < 0 {
        let f = saved.map_values(|r: Account| with_default_if(r, a.id@));
        assert forall|i: int, j: int|
            0 <= i < f.len() && 0 <= j < f.len() && i != j implies #[trigger] f[i].id@
            != #[trigger] f[j].id@ by {
            assert(f[i].id@ == saved[i].id@);
            assert(f[j].id@ == saved[j].id@);
        }
        assert forall|i: int, j: int|
            0 <= i < f.len() && 0 <= j < f.len() && i != j implies !(#[trigger] f[i].is_default_sender
            && #[trigger] f[j].is_default_sender) by {
            assert(!account_is_default()(saved[i]));
            assert(!account_is_default()(saved[j]));
            assert(saved[i].id@ != saved[j].id@);
            assert(f[i] == with_default_if(saved[i], a.id@));
            assert(f[j] == with_default_if(saved[j], a.id@));
        }
    }
}

} // verus!

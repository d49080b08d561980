//! What each user command decides: validating input, creating, changing and
//! removing accounts, and recording the outcome of a synchronisation. The
//! mail servers are reached elsewhere; these functions take what came back.
use vstd::prelude::*;

use crate::credentials::CredentialStore;
use crate::error::{AppError, AppResult, is_database, is_validation, validation};
use crate::models::{Account, AccountInput, Folder, HeaderView, MessageBody, MessageHeader, SyncReport, opt_str_view};
use crate::seqs::{first_index, sort_by, upsert};
use crate::store::{
    Store, StoreView, account_before, account_updated, accounts_after_upsert, cached_body_of, error_recorded,
    find_account, folder_has_key, folder_list, foreign_key_message, has_account,
    header_has_key, header_views, without_account,
};
use crate::text::{contains_char, is_blank, is_blank_seq, trim, trim_seq};

verus! {

// ---------------------------------------------------------------------------
// Account input

/// What is wrong with `input`, checked in this order, or `None`: a blank
/// display name, an email that is blank or has no `@`, a blank username, a
/// blank IMAP or SMTP host, a zero port, and, when a password is required,
/// a missing or empty password.
pub open spec fn account_input_problem(input: AccountInput, require_password: bool) -> Option<Seq<char>> {
    if is_blank_seq(input.display_name@) {
        Some("display name is required"@)
    } else if is_blank_seq(input.email@) || !input.email@.contains('@') {
        Some("valid email is required"@)
    } else if is_blank_seq(input.username@) {
        Some("username is required"@)
    } else if is_blank_seq(input.imap_host@) || is_blank_seq(input.smtp_host@) {
        Some("IMAP and SMTP hosts are required"@)
    } else if input.imap_port == 0 || input.smtp_port == 0 {
        Some("IMAP and SMTP ports are required"@)
    } else if require_password && match input.password {
        Some(p) => p@.len() == 0,
        None => true,
    } {
        Some("password is required"@)
    } else {
        None
    }
}

/// An account input is accepted exactly when its display name, email,
/// username and both hosts are not blank, the email holds an `@`, both
/// ports are set, and, where a password is required, one that is not empty
/// is given; one whose names and email are valid but whose IMAP or SMTP host
/// is blank is refused for the hosts.
pub proof fn lemma_account_input_checks(input: AccountInput, require_password: bool)
    ensures
        account_input_problem(input, require_password) is None <==> (!is_blank_seq(input.display_name@) && !is_blank_seq(input.email@)
            && input.email@.contains('@') && !is_blank_seq(input.username@) && !is_blank_seq(input.imap_host@)
            && !is_blank_seq(input.smtp_host@) && input.imap_port != 0 && input.smtp_port != 0
            && (require_password ==> (input.password matches Some(p) && p@.len() > 0))),
        !is_blank_seq(input.display_name@) && !is_blank_seq(input.email@) && input.email@.contains('@')
            && !is_blank_seq(input.username@) && (is_blank_seq(input.imap_host@) || is_blank_seq(input.smtp_host@))
            ==> account_input_problem(input, require_password) == Some("IMAP and SMTP hosts are required"@),
{
}

/// Checks `input` before an account is created (`require_password`) or
/// changed; the error names the first problem found.
pub fn validate_account_input(input: &AccountInput, require_password: bool) -> (r: AppResult<()>)
    ensures
        match account_input_problem(*input, require_password) {
            Some(msg) => r matches Err(e) && is_validation(e, msg),
            None => r is Ok,
        },
        r is Ok <==> (!is_blank_seq(input.display_name@) && !is_blank_seq(input.email@)
            && input.email@.contains('@') && !is_blank_seq(input.username@) && !is_blank_seq(input.imap_host@)
            && !is_blank_seq(input.smtp_host@) && input.imap_port != 0 && input.smtp_port != 0
            && (require_password ==> (input.password matches Some(p) && p@.len() > 0))),
        !is_blank_seq(input.display_name@) && !is_blank_seq(input.email@) && input.email@.contains('@')
            && !is_blank_seq(input.username@) && (is_blank_seq(input.imap_host@) || is_blank_seq(input.smtp_host@))
            ==> (r matches Err(e) && is_validation(e, "IMAP and SMTP hosts are required"@)),
{
    proof {
        lemma_account_input_checks(*input, require_password);
    }
    if is_blank(input.display_name.as_str()) {
        return Err(validation("display name is required"));
    }
    if is_blank(input.email.as_str()) || !contains_char(input.email.as_str(), '@') {
        return Err(validation("valid email is required"));
    }
    if is_blank(input.username.as_str()) {
        return Err(validation("username is required"));
    }
    if is_blank(input.imap_host.as_str()) || is_blank(input.smtp_host.as_str()) {
        return Err(validation("IMAP and SMTP hosts are required"));
    }
    if input.imap_port == 0 || input.smtp_port == 0 {
        return Err(validation("IMAP and SMTP ports are required"));
    }
    if require_password {
        let missing = match &input.password {
            Some(p) => p.as_str().is_empty(),
            None => true,
        };
        if missing {
            return Err(validation("password is required"));
        }
    }
    Ok(())
}

// ---------------------------------------------------------------------------
// Accounts

/// `a` is the account that `input` creates under the id `id`: text trimmed,
/// the credential key `account:<id>`, no error recorded.
pub open spec fn account_created(a: Account, input: AccountInput, id: Seq<char>) -> bool {
    &&& a.id@ == id
    &&& a.credential_key@ == "account:"@ + id
    &&& a.display_name@ == trim_seq(input.display_name@)
    &&& a.email@ == trim_seq(input.email@)
    &&& a.imap_host@ == trim_seq(input.imap_host@)
    &&& a.imap_port == input.imap_port
    &&& a.imap_security == input.imap_security
    &&& a.smtp_host@ == trim_seq(input.smtp_host@)
    &&& a.smtp_port == input.smtp_port
    &&& a.smtp_security == input.smtp_security
    &&& a.username@ == trim_seq(input.username@)
    &&& a.is_default_sender == input.is_default_sender
    &&& a.sync_enabled == input.sync_enabled
    &&& a.last_error is None
}

/// The key under which the password of account `id` is kept.
pub fn credential_key_for(id: &str) -> (r: String)
    ensures
        r@ == "account:"@ + id@,
{
    "account:".to_owned().concat(id)
}

/// Whether `c` is a lower-case hexadecimal digit.
pub open spec fn lower_hex_digit(c: char) -> bool {
    ('0' <= c && c <= '9') || ('a' <= c && c <= 'f')
}

/// Whether position `i` of `s` is as in the text of a version 4 UUID.
pub open spec fn uuid_char_ok(s: Seq<char>, i: int) -> bool {
    if i == 8 || i == 13 || i == 18 || i == 23 {
        s[i] == '-'
    } else if i == 14 {
        s[i] == '4'
    } else if i == 19 {
        s[i] == '8' || s[i] == '9' || s[i] == 'a' || s[i] == 'b'
    } else {
        lower_hex_digit(s[i])
    }
}

/// `s` is the hyphenated lower-case text of a version 4 UUID:
/// `xxxxxxxx-xxxx-4xxx-yxxx-xxxxxxxxxxxx` with `y` one of `8`, `9`, `a`, `b`.
pub open spec fn uuid_v4_text(s: Seq<char>) -> bool {
    &&& s.len() == 36
    &&& forall|i: int| 0 <= i < 36 ==> #[trigger] uuid_char_ok(s, i)
}

/// Draws a fresh account id: `uuid::Uuid::new_v4` rendered by its
/// `Display`, the hyphenated lower-case form. `new_v4` fixes the version
/// digit to 4 and the variant digit to one of 8, 9, a, b; the other digits
/// are random, so nothing more is stated.
#[verifier::external_body]
fn new_account_id() -> (r: String)
    ensures
        uuid_v4_text(r@),
{
    uuid::Uuid::new_v4().to_string()
}

/// The password that an input asks to store: one that is given and not empty.
pub open spec fn new_password(input: AccountInput) -> Option<Seq<char>> {
    match input.password {
        Some(p) => if p@.len() > 0 {
            Some(p@)
        } else {
            None
        },
        None => None,
    }
}

/// Every key of `c` but `key` holds what it held in `c0`.
pub open spec fn others_kept<C: CredentialStore>(c0: C, c: C, key: Seq<char>) -> bool {
    forall|k: Seq<char>| k != key ==> #[trigger] c.stored(k) == c0.stored(k)
}

/// Every key of `c` holds what it held in `c0`.
pub open spec fn all_kept<C: CredentialStore>(c0: C, c: C) -> bool {
    forall|k: Seq<char>| #[trigger] c.stored(k) == c0.stored(k)
}

/// What `add_account_with_id` owes for the id `id`: see there.
pub open spec fn account_added<C: CredentialStore>(
    s0: StoreView,
    s: StoreView,
    c0: C,
    c: C,
    input: AccountInput,
    id: Seq<char>,
    r: AppResult<Account>,
) -> bool {
    let key = "account:"@ + id;
    match account_input_problem(input, true) {
        Some(msg) => r matches Err(e) && is_validation(e, msg) && s == s0 && c == c0,
        None => {
            let pw = input.password.unwrap()@;
            &&& (r is Ok <==> c0.accepts(key, Some(pw)))
            &&& (r is Err ==> s == s0 && all_kept(c0, c))
            &&& (r matches Ok(a) ==> {
                &&& a.id@ == id
                &&& c.stored(key) == Some(pw)
                &&& others_kept(c0, c, key)
                &&& exists|u: Account| #[trigger] account_created(u, input, id)
                    && s == (StoreView { accounts: accounts_after_upsert(s0.accounts, u), ..s0 })
                &&& find_account(s.accounts, id) == Some(a)
                &&& s.accounts.len() == s0.accounts.len() + if has_account(s0.accounts, id) { 0int } else { 1int }
            })
        },
    }
}

/// Creates an account from `input` under a fresh random id (the text of a
/// version 4 UUID); see `add_account_with_id`, whose contract holds for the
/// id drawn. A valid input is saved whenever the credential store takes
/// every write.
pub fn add_account<C: CredentialStore>(store: &mut Store, credentials: &mut C, input: &AccountInput) -> (r: AppResult<Account>)
    requires
        old(store).wf(),
    ensures
        final(store).wf(),
        account_input_problem(*input, true) matches Some(msg) ==> (r matches Err(e) && is_validation(e, msg)
            && final(store)@ == old(store)@ && *final(credentials) == *old(credentials)),
        r is Err ==> final(store)@ == old(store)@,
        account_input_problem(*input, true) is None && (forall|k: Seq<char>, p: Option<Seq<char>>|
            #[trigger] old(credentials).accepts(k, p)) ==> r is Ok,
        r matches Ok(a) ==> uuid_v4_text(a.id@)
            && account_added(old(store)@, final(store)@, *old(credentials), *final(credentials), *input, a.id@, r),
        r is Ok ==> !is_blank_seq(input.display_name@) && !is_blank_seq(input.email@)
            && input.email@.contains('@') && !is_blank_seq(input.username@) && !is_blank_seq(input.imap_host@)
            && !is_blank_seq(input.smtp_host@) && input.imap_port != 0 && input.smtp_port != 0,
{
    validate_account_input(input, true)?;
    let id = new_account_id();
    add_account_with_id(store, credentials, input, id)
}

/// Creates the account that `input` describes under the id `id`: the input
/// is validated (a password is required), the password is stored under the
/// key `account:<id>`, and the account is saved as `upsert_account` does and
/// read back. An invalid input touches neither store; a write that the
/// credential store refuses leaves the cache unchanged.
pub fn add_account_with_id<C: CredentialStore>(
    store: &mut Store,
    credentials: &mut C,
    input: &AccountInput,
    id: String,
) -> (r: AppResult<Account>)
    requires
        old(store).wf(),
    ensures
        final(store).wf(),
        account_added(old(store)@, final(store)@, *old(credentials), *final(credentials), *input, id@, r),
        r is Ok ==> !is_blank_seq(input.display_name@) && !is_blank_seq(input.email@)
            && input.email@.contains('@') && !is_blank_seq(input.username@) && !is_blank_seq(input.imap_host@)
            && !is_blank_seq(input.smtp_host@) && input.imap_port != 0 && input.smtp_port != 0,
{
    proof {
        lemma_account_input_checks(*input, true);
    }
    validate_account_input(input, true)?;
    let credential_key = credential_key_for(id.as_str());
    let password = match &input.password {
        Some(p) => p,
        None => {
            return Err(validation("password is required"));
        },
    };
    credentials.set_password(credential_key.as_str(), password.as_str())?;
    let account = Account {
        id: id.clone(),
        display_name: trim(input.display_name.as_str()),
        email: trim(input.email.as_str()),
        imap_host: trim(input.imap_host.as_str()),
        imap_port: input.imap_port,
        imap_security: input.imap_security,
        smtp_host: trim(input.smtp_host.as_str()),
        smtp_port: input.smtp_port,
        smtp_security: input.smtp_security,
        username: trim(input.username.as_str()),
        credential_key,
        is_default_sender: input.is_default_sender,
        sync_enabled: input.sync_enabled,
        last_error: None,
    };
    assert(account_created(account, *input, id@));
    proof {
        crate::store::lemma_account_read_after_save(store@.accounts, account);
        crate::store::lemma_account_count_after_save(store@.accounts, account);
    }
    store.upsert_account(&account)?;
    match store.account(id.as_str())? {
        Some(a) => {
            proof {
                crate::store::lemma_find_account_has_id(store@.accounts, id@);
            }
            Ok(a)
        },
        None => Err(AppError::Other("account disappeared after save".to_owned())),
    }
}

/// Changes account `id` to `input` (validated; no password required) as
/// `Store::update_account` does, then, when a password that is not empty was
/// given, stores it under the account's credential key. The change stays
/// saved if storing the password fails; without a new password the
/// credential store is not touched.
pub fn update_account<C: CredentialStore>(
    store: &mut Store,
    credentials: &mut C,
    id: &str,
    input: &AccountInput,
) -> (r: AppResult<Account>)
    requires
        old(store).wf(),
    ensures
        final(store).wf(),
        match account_input_problem(*input, false) {
            Some(msg) => r matches Err(e) && is_validation(e, msg) && final(store)@ == old(store)@
                && *final(credentials) == *old(credentials),
            None => match find_account(old(store)@.accounts, id@) {
                None => r matches Err(e) && is_validation(e, "account not found"@) && final(store)@ == old(store)@
                    && *final(credentials) == *old(credentials),
                Some(prev) => (exists|u: Account| #[trigger] account_updated(u, prev, *input)
                    && final(store)@ == (StoreView { accounts: accounts_after_upsert(old(store)@.accounts, u), ..old(store)@ }))
                    && (r matches Ok(a) ==> find_account(final(store)@.accounts, id@) == Some(a))
                    && match new_password(*input) {
                        None => r is Ok && *final(credentials) == *old(credentials),
                        Some(p) => {
                            &&& (r is Ok <==> old(credentials).accepts(prev.credential_key@, Some(p)))
                            &&& (r is Ok ==> final(credentials).stored(prev.credential_key@) == Some(p))
                            &&& (r is Ok ==> others_kept(*old(credentials), *final(credentials), prev.credential_key@))
                            &&& (r is Err ==> all_kept(*old(credentials), *final(credentials)))
                        },
                    },
            },
        },
{
    validate_account_input(input, false)?;
    let account = store.update_account(id, input)?;
    match &input.password {
        Some(p) => {
            if !p.as_str().is_empty() {
                credentials.set_password(account.credential_key.as_str(), p.as_str())?;
            }
        },
        None => {},
    }
    Ok(account)
}

/// Removes account `id` and all it stored, then asks the credential store
/// to forget the account's password, whether or not that succeeds. Without
/// such an account the credential store is not touched.
pub fn remove_account<C: CredentialStore>(store: &mut Store, credentials: &mut C, id: &str) -> (r: AppResult<()>)
    requires
        old(store).wf(),
    ensures
        final(store).wf(),
        r is Ok,
        final(store)@ == without_account(old(store)@, id@),
        match find_account(old(store)@.accounts, id@) {
            None => *final(credentials) == *old(credentials),
            Some(a) => {
                &&& old(credentials).accepts(a.credential_key@, None) ==> final(credentials).stored(a.credential_key@) is None
                    && others_kept(*old(credentials), *final(credentials), a.credential_key@)
                &&& !old(credentials).accepts(a.credential_key@, None) ==> all_kept(*old(credentials), *final(credentials))
            },
        },
{
    if let Some(account) = store.remove_account(id)? {
        let _ = credentials.delete_password(account.credential_key.as_str());
    }
    Ok(())
}

/// The account that `input` describes, for a connection test, with the id
/// and credential key `connection-test` and its text as given, and the
/// password; fails when `input` is not valid with a password.
pub fn connection_test_account(input: &AccountInput) -> (r: AppResult<(Account, String)>)
    ensures
        match account_input_problem(*input, true) {
            Some(msg) => r matches Err(e) && is_validation(e, msg),
            None => r matches Ok((a, p)) && input.password == Some(p) && a.id@ == "connection-test"@
                && a.credential_key@ == "connection-test"@ && a.display_name == input.display_name
                && a.email == input.email && a.imap_host == input.imap_host && a.imap_port == input.imap_port
                && a.imap_security == input.imap_security && a.smtp_host == input.smtp_host
                && a.smtp_port == input.smtp_port && a.smtp_security == input.smtp_security
                && a.username == input.username && a.is_default_sender == input.is_default_sender
                && a.sync_enabled == input.sync_enabled && a.last_error is None,
        },
{
    validate_account_input(input, true)?;
    let password = match &input.password {
        Some(p) => p.clone(),
        None => {
            return Err(validation("password is required"));
        },
    };
    let account = Account {
        id: "connection-test".to_owned(),
        display_name: input.display_name.clone(),
        email: input.email.clone(),
        imap_host: input.imap_host.clone(),
        imap_port: input.imap_port,
        imap_security: input.imap_security,
        smtp_host: input.smtp_host.clone(),
        smtp_port: input.smtp_port,
        smtp_security: input.smtp_security,
        username: input.username.clone(),
        credential_key: "connection-test".to_owned(),
        is_default_sender: input.is_default_sender,
        sync_enabled: input.sync_enabled,
        last_error: None,
    };
    Ok((account, password))
}

/// The account `account_id`, or the error "account not found".
pub fn require_account(store: &Store, account_id: &str) -> (r: AppResult<Account>)
    ensures
        match find_account(store@.accounts, account_id@) {
            Some(a) => r == Ok::<Account, AppError>(a),
            None => r matches Err(e) && is_validation(e, "account not found"@),
        },
{
    match store.account(account_id)? {
        Some(a) => Ok(a),
        None => Err(validation("account not found")),
    }
}

/// The account `account_id` and the password stored under its credential
/// key; fails where the account or its password is missing.
pub fn account_credentials<C: CredentialStore>(store: &Store, credentials: &C, account_id: &str) -> (r: AppResult<(Account, String)>)
    ensures
        match find_account(store@.accounts, account_id@) {
            Some(a) => {
                &&& r matches Ok((b, p)) ==> b == a && credentials.stored(a.credential_key@) == Some(p@)
                &&& credentials.stored(a.credential_key@) is None ==> r is Err
            },
            None => r matches Err(e) && is_validation(e, "account not found"@),
        },
{
    let account = require_account(store, account_id)?;
    let password = credentials.get_password(account.credential_key.as_str())?;
    Ok((account, password))
}

/// Checks a message before it is sent: its subject must not be blank.
pub fn check_outgoing_subject(subject: &str) -> (r: AppResult<()>)
    ensures
        is_blank_seq(subject@) ==> (r matches Err(e) && is_validation(e, "subject is required"@)),
        !is_blank_seq(subject@) ==> r is Ok,
{
    if is_blank(subject) {
        return Err(validation("subject is required"));
    }
    Ok(())
}

// ---------------------------------------------------------------------------
// Folders

/// The cached folders of account `account_id`, or `None` when none are
/// cached (and the folders must be fetched from the server).
pub fn cached_folders(store: &Store, account_id: &str) -> (r: AppResult<Option<Vec<Folder>>>)
    ensures
        r matches Ok(o) && match o {
            Some(v) => v@ == folder_list(store@, account_id@) && v@.len() > 0,
            None => folder_list(store@, account_id@).len() == 0,
        },
{
    let cached = store.folders(account_id)?;
    if cached.len() > 0 {
        Ok(Some(cached))
    } else {
        Ok(None)
    }
}

/// Where an account's folders come from: the cache, or the server, reached
/// as the account with its password.
pub enum FolderSource {
    Cached(Vec<Folder>),
    Server(Account, String),
}

/// Where the folders of account `account_id` come from: the cached folders
/// when there are any; otherwise the server, reached with the account and
/// the password stored under its credential key.
pub fn folder_source<C: CredentialStore>(store: &Store, credentials: &C, account_id: &str) -> (r: AppResult<FolderSource>)
    ensures
        folder_list(store@, account_id@).len() > 0 ==> (r matches Ok(FolderSource::Cached(v))
            && v@ == folder_list(store@, account_id@)),
        folder_list(store@, account_id@).len() == 0 ==> match find_account(store@.accounts, account_id@) {
            None => r matches Err(e) && is_validation(e, "account not found"@),
            Some(a) => {
                &&& r matches Ok(src) ==> (src matches FolderSource::Server(b, p) && b == a
                    && credentials.stored(a.credential_key@) == Some(p@))
                &&& credentials.stored(a.credential_key@) is None ==> r is Err
            },
        },
{
    match cached_folders(store, account_id)? {
        Some(v) => Ok(FolderSource::Cached(v)),
        None => {
            let (account, password) = account_credentials(store, credentials, account_id)?;
            Ok(FolderSource::Server(account, password))
        },
    }
}

/// Where a message body comes from: the cache, or the server, reached as
/// the account with its password.
pub enum BodySource {
    Cached(MessageBody),
    Server(Account, String),
}

/// Where the body of message `uid` in `folder_path` of account `account_id`
/// comes from: the cached body when there is one; otherwise the server,
/// reached with the account and the password stored under its credential
/// key (the fetched body is then cached with `Store::upsert_body`).
pub fn body_source<C: CredentialStore>(
    store: &Store,
    credentials: &C,
    account_id: &str,
    folder_path: &str,
    uid: i64,
) -> (r: AppResult<BodySource>)
    ensures
        cached_body_of(store@, account_id@, folder_path@, uid) matches Some(b) ==> (r matches Ok(BodySource::Cached(c))
            && c@ == b),
        cached_body_of(store@, account_id@, folder_path@, uid) is None ==> match find_account(store@.accounts, account_id@) {
            None => r matches Err(e) && is_validation(e, "account not found"@),
            Some(a) => {
                &&& r matches Ok(src) ==> (src matches BodySource::Server(b, p) && b == a
                    && credentials.stored(a.credential_key@) == Some(p@))
                &&& credentials.stored(a.credential_key@) is None ==> r is Err
            },
        },
{
    match store.cached_body(account_id, folder_path, uid)? {
        Some(b) => Ok(BodySource::Cached(b)),
        None => {
            let (account, password) = account_credentials(store, credentials, account_id)?;
            Ok(BodySource::Server(account, password))
        },
    }
}

/// The folders table after saving `fs` one by one into `table`; the flag
/// tells whether all were saved, saving stopping at the first folder whose
/// account does not exist.
pub open spec fn save_folders_spec(accounts: Seq<Account>, table: Seq<Folder>, fs: Seq<Folder>) -> (Seq<Folder>, bool)
    decreases fs.len(),
{
    if fs.len() == 0 {
        (table, true)
    } else if !has_account(accounts, fs[0].account_id@) {
        (table, false)
    } else {
        save_folders_spec(accounts, upsert(table, fs[0], folder_has_key(fs[0].account_id@, fs[0].path@)), fs.drop_first())
    }
}

/// Saves `folders` one by one, stopping at the first failure.
pub fn save_folders(store: &mut Store, folders: &Vec<Folder>) -> (r: AppResult<()>)
    requires
        old(store).wf(),
    ensures
        final(store).wf(),
        ({
            let saved = save_folders_spec(old(store)@.accounts, old(store)@.folders, folders@);
            &&& final(store)@ == (StoreView { folders: saved.0, ..old(store)@ })
            &&& (r is Ok <==> saved.1)
            &&& (r matches Err(e) ==> is_database(e, foreign_key_message()))
        }),
{
    let ghost v0 = store@;
    let ghost goal = save_folders_spec(v0.accounts, v0.folders, folders@);
    let mut i: usize = 0;
    assert(folders@.skip(0) =~= folders@);
    while i < folders.len()
        invariant
            store.wf(),
            i <= folders@.len(),
            store@ == (StoreView { folders: store@.folders, ..v0 }),
            old(store)@ == v0,
            goal == save_folders_spec(v0.accounts, v0.folders, folders@),
            save_folders_spec(v0.accounts, store@.folders, folders@.skip(i as int)) == goal,
        decreases folders.len() - i,
    {
        assert(folders@.skip(i as int)[0] == folders@[i as int]);
        assert(folders@.skip(i as int).drop_first() =~= folders@.skip(i + 1));
        let res = store.upsert_folder(&folders[i]);
        if res.is_err() {
            return res;
        }
        i = i + 1;
    }
    assert(folders@.skip(i as int) =~= Seq::<Folder>::empty());
    Ok(())
}

// ---------------------------------------------------------------------------
// Synchronisation

/// The accounts whose inbox is synchronised, in account list order.
pub fn syncable_accounts(store: &Store) -> (r: AppResult<Vec<Account>>)
    ensures
        r matches Ok(v) && v@ == sort_by(store@.accounts, account_before()).filter(|a: Account| a.sync_enabled),
{
    let accounts = store.accounts()?;
    let ghost p = |a: Account| a.sync_enabled;
    let mut out: Vec<Account> = Vec::new();
    let mut i: usize = 0;
    while i < accounts.len()
        invariant
            p == (|a: Account| a.sync_enabled),
            i <= accounts@.len(),
            out@ == accounts@.take(i as int).filter(p),
        decreases accounts.len() - i,
    {
        proof {
            assert(accounts@.take(i + 1) =~= accounts@.take(i as int).push(accounts@[i as int]));
            accounts@.take(i as int).lemma_filter_push(accounts@[i as int], p);
        }
        if accounts[i].sync_enabled {
            out.push(accounts[i].clone());
        }
        i = i + 1;
    }
    assert(accounts@.take(accounts@.len() as int) =~= accounts@);
    Ok(out)
}

/// Whether each report of `reports` stands for the account at its place
/// in `accounts`.
pub open spec fn reports_paired(accounts: Seq<Account>, reports: Seq<SyncReport>) -> bool {
    &&& reports.len() <= accounts.len()
    &&& forall|i: int| 0 <= i < reports.len() ==> (#[trigger] reports[i]).account_id@ == accounts[i].id@
}

/// A synchronisation of every inbox under way: the accounts to synchronise,
/// in account list order, and the reports of those done so far, the i-th
/// report standing for the i-th account. The accounts are taken one after
/// another; the first failure ends the run.
pub struct SyncRun {
    accounts: Vec<Account>,
    reports: Vec<SyncReport>,
}

impl SyncRun {
    /// Each report stands for the account at its place.
    #[verifier::type_invariant]
    spec fn paired(self) -> bool {
        reports_paired(self.accounts@, self.reports@)
    }

    /// The accounts of the run, in order.
    pub closed spec fn accounts_spec(&self) -> Seq<Account> {
        self.accounts@
    }

    /// The reports of the accounts done so far, in order.
    pub closed spec fn reports_spec(&self) -> Seq<SyncReport> {
        self.reports@
    }

    /// A run over the accounts whose inbox is synchronised, with nothing done.
    pub fn start(store: &Store) -> (r: AppResult<SyncRun>)
        ensures
            r matches Ok(run) && run.accounts_spec() == sort_by(store@.accounts, account_before()).filter(
                |a: Account| a.sync_enabled,
            ) && run.reports_spec().len() == 0,
    {
        let accounts = syncable_accounts(store)?;
        Ok(SyncRun { accounts, reports: Vec::new() })
    }

    /// The account to synchronise next: the first one without a report, if
    /// any is left. Each report stands for the account at its place.
    pub fn next_account(&self) -> (r: Option<Account>)
        ensures
            reports_paired(self.accounts_spec(), self.reports_spec()),
            self.reports_spec().len() < self.accounts_spec().len() ==> r == Some(
                self.accounts_spec()[self.reports_spec().len() as int],
            ),
            self.reports_spec().len() == self.accounts_spec().len() ==> r is None,
    {
        proof {
            use_type_invariant(self);
        }
        if self.reports.len() < self.accounts.len() {
            Some(self.accounts[self.reports.len()].clone())
        } else {
            None
        }
    }

    /// Takes the outcome of synchronising the next account: the run with
    /// its report added, or the run as it was and the error, which ends the
    /// run. A report must stand for the next account.
    pub fn record(self, outcome: AppResult<SyncReport>) -> (r: (SyncRun, Option<AppError>))
        requires
            outcome matches Ok(rep) ==> self.reports_spec().len() < self.accounts_spec().len()
                && rep.account_id@ == self.accounts_spec()[self.reports_spec().len() as int].id@,
        ensures
            r.0.accounts_spec() == self.accounts_spec(),
            reports_paired(r.0.accounts_spec(), r.0.reports_spec()),
            match outcome {
                Ok(rep) => r.1 is None && r.0.reports_spec() == self.reports_spec().push(rep),
                Err(e) => r.1 == Some(e) && r.0.reports_spec() == self.reports_spec(),
            },
    {
        proof {
            use_type_invariant(&self);
        }
        let SyncRun { accounts, mut reports } = self;
        match outcome {
            Ok(rep) => {
                reports.push(rep);
                let run = SyncRun { accounts, reports };
                (run, None)
            },
            Err(e) => (SyncRun { accounts, reports }, Some(e)),
        }
    }

    /// The reports of the run, in order, each standing for the account at
    /// its place.
    pub fn finish(self) -> (r: Vec<SyncReport>)
        ensures
            r@ == self.reports_spec(),
            reports_paired(self.accounts_spec(), r@),
    {
        proof {
            use_type_invariant(&self);
        }
        self.reports
    }
}

/// The greatest uid among `hs`, if there is one.
pub open spec fn max_uid(hs: Seq<HeaderView>) -> Option<i64>
    decreases hs.len(),
{
    if hs.len() == 0 {
        None
    } else {
        match max_uid(hs.drop_last()) {
            None => Some(hs.last().uid),
            Some(m) => Some(if hs.last().uid > m { hs.last().uid } else { m }),
        }
    }
}

/// The greatest uid among `headers`, if there is one.
pub fn greatest_uid(headers: &Vec<MessageHeader>) -> (r: Option<i64>)
    ensures
        r == max_uid(header_views(headers@)),
{
    let ghost hv = header_views(headers@);
    let mut best: Option<i64> = None;
    let mut i: usize = 0;
    while i < headers.len()
        invariant
            hv == header_views(headers@),
            i <= headers@.len(),
            best == max_uid(hv.take(i as int)),
        decreases headers.len() - i,
    {
        assert(hv.take(i + 1).drop_last() =~= hv.take(i as int));
        assert(hv.take(i + 1).last() == headers@[i as int]@);
        let uid = headers[i].uid;
        best = match best {
            None => Some(uid),
            Some(m) => Some(if uid > m { uid } else { m }),
        };
        i = i + 1;
    }
    assert(hv.take(headers@.len() as int) =~= hv);
    best
}

/// The headers table after saving `hs` one by one into `table`; the flag
/// tells whether all were saved, saving stopping at the first header whose
/// account does not exist.
pub open spec fn save_headers_spec(accounts: Seq<Account>, table: Seq<HeaderView>, hs: Seq<HeaderView>) -> (Seq<HeaderView>, bool)
    decreases hs.len(),
{
    if hs.len() == 0 {
        (table, true)
    } else if !has_account(accounts, hs[0].account_id@) {
        (table, false)
    } else {
        save_headers_spec(accounts, upsert(table, hs[0], header_has_key(hs[0].account_id@, hs[0].folder_path@, hs[0].uid)), hs.drop_first())
    }
}

/// `f` is the inbox folder row that a synchronisation of account
/// `account_id` that fetched `hs` writes.
pub open spec fn inbox_folder(f: Folder, account_id: Seq<char>, hs: Seq<HeaderView>) -> bool {
    &&& f.account_id@ == account_id
    &&& f.path@ == "INBOX"@
    &&& f.display_name@ == "Inbox"@
    &&& opt_str_view(f.role) == Some("inbox"@)
    &&& f.uid_validity is None
    &&& f.last_synced_uid == max_uid(hs)
}

/// The accounts table with the last error of account `id` cleared.
pub open spec fn error_cleared(accounts: Seq<Account>, id: Seq<char>) -> Seq<Account> {
    accounts.map_values(|a: Account| if a.id@ == id { Account { last_error: None, ..a } } else { a })
}

fn save_headers(store: &mut Store, headers: &Vec<MessageHeader>) -> (r: AppResult<()>)
    requires
        old(store).wf(),
    ensures
        final(store).wf(),
        ({
            let saved = save_headers_spec(old(store)@.accounts, old(store)@.headers, header_views(headers@));
            &&& final(store)@ == (StoreView { headers: saved.0, ..old(store)@ })
            &&& (r is Ok <==> saved.1)
            &&& (r matches Err(e) ==> is_database(e, foreign_key_message()))
        }),
{
    let ghost v0 = store@;
    let ghost hv = header_views(headers@);
    let ghost goal = save_headers_spec(v0.accounts, v0.headers, hv);
    let mut i: usize = 0;
    assert(hv.skip(0) =~= hv);
    while i < headers.len()
        invariant
            hv == header_views(headers@),
            store.wf(),
            i <= headers@.len(),
            store@ == (StoreView { headers: store@.headers, ..v0 }),
            old(store)@ == v0,
            goal == save_headers_spec(v0.accounts, v0.headers, hv),
            save_headers_spec(v0.accounts, store@.headers, hv.skip(i as int)) == goal,
        decreases headers.len() - i,
    {
        assert(hv.skip(i as int)[0] == headers@[i as int]@);
        assert(hv.skip(i as int).drop_first() =~= hv.skip(i + 1));
        let res = store.upsert_message_header(&headers[i]);
        if res.is_err() {
            return res;
        }
        i = i + 1;
    }
    assert(hv.skip(i as int) =~= Seq::<HeaderView>::empty());
    Ok(())
}

/// Records the outcome of synchronising the inbox of `account`. When the
/// headers were fetched: the account's last error is cleared, its inbox
/// folder row is saved with the greatest fetched uid, the headers are saved
/// one by one, and the report counts them. When fetching failed: the error's
/// message becomes the account's last error and the report's error, with
/// nothing counted. Storage errors end the recording early and are returned.
pub fn record_sync(store: &mut Store, account: &Account, outcome: AppResult<Vec<MessageHeader>>) -> (r: AppResult<SyncReport>)
    requires
        old(store).wf(),
    ensures
        final(store).wf(),
        match outcome {
            Ok(hs) => {
                let v1 = StoreView { accounts: error_cleared(old(store)@.accounts, account.id@), ..old(store)@ };
                if !has_account(old(store)@.accounts, account.id@) {
                    final(store)@ == v1 && (r matches Err(e) && is_database(e, foreign_key_message()))
                } else {
                    exists|f: Folder| #[trigger] inbox_folder(f, account.id@, header_views(hs@)) && {
                        let v2 = StoreView { folders: upsert(v1.folders, f, folder_has_key(account.id@, "INBOX"@)), ..v1 };
                        let saved = save_headers_spec(v2.accounts, v2.headers, header_views(hs@));
                        &&& final(store)@ == (StoreView { headers: saved.0, ..v2 })
                        &&& (saved.1 ==> (r matches Ok(rep) && rep.account_id == account.id && rep.synced == hs.len()
                            && rep.error is None))
                        &&& (!saved.1 ==> (r matches Err(e) && is_database(e, foreign_key_message())))
                    }
                }
            },
            Err(err) => {
                &&& r matches Ok(rep) && rep.account_id == account.id && rep.synced == 0 && opt_str_view(rep.error)
                    == Some(err.message_spec())
                &&& final(store)@.accounts.len() == old(store)@.accounts.len()
                &&& forall|k: int| 0 <= k < old(store)@.accounts.len() ==> error_recorded(
                    #[trigger] final(store)@.accounts[k],
                    old(store)@.accounts[k],
                    account.id@,
                    Some(err.message_spec()),
                )
                &&& final(store)@ == (StoreView { accounts: final(store)@.accounts, ..old(store)@ })
            },
        },
{
    match outcome {
        Ok(headers) => {
            let ghost v0 = store@;
            let _ = store.set_account_error(account.id.as_str(), None);
            assert(store@.accounts =~= error_cleared(v0.accounts, account.id@));
            assert(store@ == StoreView { accounts: error_cleared(v0.accounts, account.id@), ..v0 });
            let folder = Folder {
                account_id: account.id.clone(),
                path: "INBOX".to_owned(),
                display_name: "Inbox".to_owned(),
                role: Some("inbox".to_owned()),
                uid_validity: None,
                last_synced_uid: greatest_uid(&headers),
            };
            assert(inbox_folder(folder, account.id@, header_views(headers@)));
            proof {
                crate::store::lemma_error_cleared_keeps_ids(v0.accounts, account.id@, account.id@);
            }
            store.upsert_folder(&folder)?;
            save_headers(store, &headers)?;
            Ok(SyncReport { account_id: account.id.clone(), synced: headers.len(), error: None })
        },
        Err(err) => {
            let message = err.message();
            let _ = store.set_account_error(account.id.as_str(), Some(message.as_str()));
            Ok(SyncReport { account_id: account.id.clone(), synced: 0, error: Some(message) })
        },
    }
}

} // verus!

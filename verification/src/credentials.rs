//! Where account passwords are kept: the operations every credential store
//! offers, and a verified store that keeps them in memory.
use vstd::prelude::*;

use crate::error::{AppError, AppResult};
use crate::seqs::{
    first_index, lemma_first_index, lemma_first_index_at, lemma_first_index_none, lemma_first_index_push,
    lemma_first_index_same,
};
use crate::text::str_eq;

verus! {

/// A place that keeps one password per key. Its state is modelled by
/// `stored`, the password kept under each key, and by `accepts`, whether the
/// store takes a change under a key in its present state. The contracts
/// below are proved for `MemoryCredentialStore`; an implementation written
/// outside this library is not checked by Verus and must meet them on its
/// own, with a model of its own, for what this library proves of it to hold.
/// The default model, nothing stored and no change taken, is that of a store
/// that refuses every request; it describes no other store, and proofs
/// about a store of unknown type use only the contracts.
pub trait CredentialStore {
    /// The password kept under `key`, if any.
    closed spec fn stored(&self, key: Seq<char>) -> Option<Seq<char>> {
        None
    }

    /// Whether the store takes, in its present state, writing `password`
    /// under `key` (`Some`) or forgetting what is under `key` (`None`).
    closed spec fn accepts(&self, key: Seq<char>, password: Option<Seq<char>>) -> bool {
        false
    }

    /// Stores `password` under `key`, replacing what was there; nothing
    /// else changes. A refused write changes nothing.
    fn set_password(&mut self, key: &str, password: &str) -> (r: AppResult<()>)
        ensures
            r is Ok <==> old(self).accepts(key@, Some(password@)),
            r is Ok ==> final(self).stored(key@) == Some(password@),
            forall|k: Seq<char>| (k != key@ || r is Err) ==> #[trigger] final(self).stored(k) == old(self).stored(k),
    ;

    /// The password stored under `key`; an error where none is stored.
    fn get_password(&self, key: &str) -> (r: AppResult<String>)
        ensures
            r matches Ok(p) ==> self.stored(key@) == Some(p@),
            self.stored(key@) is None ==> r is Err,
    ;

    /// Forgets the password stored under `key`; nothing else changes. A
    /// refused deletion changes nothing.
    fn delete_password(&mut self, key: &str) -> (r: AppResult<()>)
        ensures
            r is Ok <==> old(self).accepts(key@, None),
            r is Ok ==> final(self).stored(key@) is None,
            forall|k: Seq<char>| (k != key@ || r is Err) ==> #[trigger] final(self).stored(k) == old(self).stored(k),
    ;
}

/// Passwords kept in memory, one entry per key, in the order they were
/// first stored.
pub struct MemoryCredentialStore {
    entries: Vec<(String, String)>,
}

/// Matches the entry stored under `key`.
pub open spec fn key_is(key: Seq<char>) -> spec_fn((Seq<char>, Seq<char>)) -> bool {
    |e: (Seq<char>, Seq<char>)| e.0 == key
}

/// Matches the entries not stored under `key`.
pub open spec fn key_is_not(key: Seq<char>) -> spec_fn((Seq<char>, Seq<char>)) -> bool {
    |e: (Seq<char>, Seq<char>)| e.0 != key
}

impl View for MemoryCredentialStore {
    type V = Seq<(Seq<char>, Seq<char>)>;

    closed spec fn view(&self) -> Seq<(Seq<char>, Seq<char>)> {
        self.entries@.map_values(|e: (String, String)| (e.0@, e.1@))
    }
}

/// The password stored under `key` in `entries`, if any.
pub open spec fn stored_password(entries: Seq<(Seq<char>, Seq<char>)>, key: Seq<char>) -> Option<Seq<char>> {
    let i = first_index(entries, key_is(key));
    if i >= 0 {
        Some(entries[i].1)
    } else {
        None
    }
}

/// `entries` with `password` stored under `key`.
pub open spec fn with_password(entries: Seq<(Seq<char>, Seq<char>)>, key: Seq<char>, password: Seq<char>) -> Seq<(Seq<char>, Seq<char>)> {
    let i = first_index(entries, key_is(key));
    if i >= 0 {
        entries.update(i, (key, password))
    } else {
        entries.push((key, password))
    }
}

/// `entries` without the entries stored under `key`.
pub open spec fn without_key(entries: Seq<(Seq<char>, Seq<char>)>, key: Seq<char>) -> Seq<(Seq<char>, Seq<char>)> {
    entries.filter(key_is_not(key))
}

impl MemoryCredentialStore {
    /// A store without passwords.
    pub fn new() -> (s: MemoryCredentialStore)
        ensures
            s@ == Seq::<(Seq<char>, Seq<char>)>::empty(),
    {
        let s = MemoryCredentialStore { entries: Vec::new() };
        assert(s@ =~= Seq::<(Seq<char>, Seq<char>)>::empty());
        s
    }

    fn position(&self, key: &str) -> (r: Option<usize>)
        ensures
            match r {
                Some(i) => i < self@.len() && first_index(self@, key_is(key@)) == i,
                None => first_index(self@, key_is(key@)) == -1,
            },
    {
        let ghost p = key_is(key@);
        let ghost v = self@;
        let mut i: usize = 0;
        while i < self.entries.len()
            invariant
                v == self@,
                v.len() == self.entries@.len(),
                p == key_is(key@),
                i <= v.len(),
                forall|k: int| 0 <= k < i ==> !p(#[trigger] v[k]),
            decreases self.entries.len() - i,
        {
            assert(v[i as int] == (self.entries@[i as int].0@, self.entries@[i as int].1@));
            if str_eq(self.entries[i].0.as_str(), key) {
                proof {
                    lemma_first_index_at(v, p, i as int);
                }
                return Some(i);
            }
            i = i + 1;
        }
        proof {
            lemma_first_index_none(v, p);
        }
        None
    }
}

impl CredentialStore for MemoryCredentialStore {
    open spec fn stored(&self, key: Seq<char>) -> Option<Seq<char>> {
        stored_password(self@, key)
    }

    /// A store in memory takes every change.
    open spec fn accepts(&self, key: Seq<char>, password: Option<Seq<char>>) -> bool {
        true
    }

    fn set_password(&mut self, key: &str, password: &str) -> (r: AppResult<()>)
        ensures
            r is Ok,
            final(self)@ == with_password(old(self)@, key@, password@),
    {
        let ghost v = self@;
        proof {
            lemma_password_read_after_write(v, key@, password@);
            assert forall|k: Seq<char>| k != key@ implies stored_password(with_password(v, key@, password@), k)
                == stored_password(v, k) by {
                lemma_password_kept_after_write(v, key@, password@, k);
            }
        }
        let entry = (key.to_owned(), password.to_owned());
        match self.position(key) {
            Some(i) => {
                self.entries.set(i, entry);
                assert(self@ =~= v.update(i as int, (key@, password@)));
            },
            None => {
                self.entries.push(entry);
                assert(self@ =~= v.push((key@, password@)));
            },
        }
        Ok(())
    }

    fn get_password(&self, key: &str) -> (r: AppResult<String>)
        ensures
            match stored_password(self@, key@) {
                Some(p) => r matches Ok(s) && s@ == p,
                None => r matches Err(e) && e matches AppError::Credential(m) && m@ == "missing password"@,
            },
    {
        match self.position(key) {
            Some(i) => {
                assert(self@[i as int] == (self.entries@[i as int].0@, self.entries@[i as int].1@));
                Ok(self.entries[i].1.clone())
            },
            None => Err(AppError::Credential("missing password".to_owned())),
        }
    }

    fn delete_password(&mut self, key: &str) -> (r: AppResult<()>)
        ensures
            r is Ok,
            final(self)@ == without_key(old(self)@, key@),
    {
        let ghost v = self@;
        let ghost p = key_is_not(key@);
        let mut kept: Vec<(String, String)> = Vec::new();
        let mut i: usize = 0;
        while i < self.entries.len()
            invariant
                v == self@,
                v.len() == self.entries@.len(),
                p == key_is_not(key@),
                i <= v.len(),
                kept@.map_values(|e: (String, String)| (e.0@, e.1@)) == v.take(i as int).filter(p),
            decreases self.entries.len() - i,
        {
            let ghost before = kept@.map_values(|e: (String, String)| (e.0@, e.1@));
            proof {
                assert(v[i as int] == (self.entries@[i as int].0@, self.entries@[i as int].1@));
                assert(v.take(i + 1) =~= v.take(i as int).push(v[i as int]));
                v.take(i as int).lemma_filter_push(v[i as int], p);
            }
            if !str_eq(self.entries[i].0.as_str(), key) {
                let e = (self.entries[i].0.clone(), self.entries[i].1.clone());
                kept.push(e);
                assert(kept@.map_values(|e: (String, String)| (e.0@, e.1@)) =~= before.push(v[i as int]));
            }
            i = i + 1;
        }
        assert(v.take(v.len() as int) =~= v);
        self.entries = kept;
        proof {
            lemma_password_gone_after_delete(v, key@);
            assert forall|k: Seq<char>| k != key@ implies stored_password(without_key(v, key@), k)
                == stored_password(v, k) by {
                lemma_password_kept_after_delete(v, key@, k);
            }
        }
        Ok(())
    }
}

/// A password read back after it was stored is the stored one.
pub proof fn lemma_password_read_after_write(entries: Seq<(Seq<char>, Seq<char>)>, key: Seq<char>, password: Seq<char>)
    ensures
        stored_password(with_password(entries, key, password), key) == Some(password),
{
    let p = key_is(key);
    crate::seqs::lemma_upsert_read(entries, (key, password), p);
    assert(with_password(entries, key, password) == crate::seqs::upsert(entries, (key, password), p));
}

/// After a key is deleted, nothing is stored under it.
pub proof fn lemma_password_gone_after_delete(entries: Seq<(Seq<char>, Seq<char>)>, key: Seq<char>)
    ensures
        stored_password(without_key(entries, key), key) is None,
{
    let w = without_key(entries, key);
    entries.filter_lemma(key_is_not(key));
    lemma_first_index(w, key_is(key));
}

/// What is stored after appending an entry: the earlier entry under `key`,
/// or the new one when there was none.
proof fn lemma_stored_push(entries: Seq<(Seq<char>, Seq<char>)>, e: (Seq<char>, Seq<char>), key: Seq<char>)
    ensures
        stored_password(entries.push(e), key) == match stored_password(entries, key) {
            Some(p) => Some(p),
            None => if e.0 == key {
                Some(e.1)
            } else {
                None
            },
        },
{
    lemma_first_index_push(entries, e, key_is(key));
    lemma_first_index(entries, key_is(key));
    let i = first_index(entries, key_is(key));
    if i >= 0 {
        assert(entries.push(e)[i] == entries[i]);
    }
}

/// Storing a password under one key leaves what other keys hold.
pub proof fn lemma_password_kept_after_write(
    entries: Seq<(Seq<char>, Seq<char>)>,
    key: Seq<char>,
    password: Seq<char>,
    other: Seq<char>,
)
    requires
        other != key,
    ensures
        stored_password(with_password(entries, key, password), other) == stored_password(entries, other),
{
    lemma_first_index(entries, key_is(key));
    let i = first_index(entries, key_is(key));
    if i >= 0 {
        let u = entries.update(i, (key, password));
        assert forall|k: int| 0 <= k < entries.len() implies key_is(other)(#[trigger] entries[k]) == key_is(other)(u[k]) by {
            if k == i {
                assert(entries[k].0 == key);
            }
        }
        lemma_first_index_same(entries, u, key_is(other));
        lemma_first_index(entries, key_is(other));
        let j = first_index(entries, key_is(other));
        if j >= 0 {
            assert(j != i);
            assert(u[j] == entries[j]);
        }
    } else {
        lemma_stored_push(entries, (key, password), other);
    }
}

/// Forgetting one key leaves what other keys hold.
pub proof fn lemma_password_kept_after_delete(entries: Seq<(Seq<char>, Seq<char>)>, key: Seq<char>, other: Seq<char>)
    requires
        other != key,
    ensures
        stored_password(without_key(entries, key), other) == stored_password(entries, other),
    decreases entries.len(),
{
    if entries.len() > 0 {
        let d = entries.drop_last();
        let x = entries.last();
        lemma_password_kept_after_delete(d, key, other);
        assert(d.push(x) =~= entries);
        d.lemma_filter_push(x, key_is_not(key));
        lemma_stored_push(d, x, other);
        if key_is_not(key)(x) {
            lemma_stored_push(d.filter(key_is_not(key)), x, other);
        }
    } else {
        assert(without_key(entries, key) =~= entries);
    }
}


} // verus!

# unified_mail

The core of a local-first desktop mail client that keeps several IMAP/SMTP
accounts behind one unified inbox, written in Verus and verified.

- `src/` is the verified library:
  - `store`: the local cache (accounts, folders, message headers, bodies and
    attachment metadata) with its keys, its foreign-key rule, the single
    default sender and the orders of every list, specified over `StoreView`;
  - `commands`: what each user command decides (validating account input,
    creating, changing and removing accounts, recording a synchronisation,
    choosing between the cache and the server, and the run over all inboxes);
  - `mail`: reading raw messages into headers and bodies with `mail-parser`,
    formatting addresses, folder names and roles, and the rules for reaching
    the servers;
  - `outgoing`: checking recipients and composing the MIME message with
    `lettre`;
  - `credentials`: the credential-store interface, with its model (the
    password kept under each key, and whether the store takes a change), and
    a verified in-memory store;
  - `rows`: reading stored rows back (RFC 3339 times with `chrono`, JSON
    flag lists with `serde_json`);
  - `text`, `seqs`, `models`, `error`: string helpers, sequence operations
    with their lemmas, the records, and the error type.
- `app/` is the unverified shell: the system keychain, the IMAP and SMTP
  network, the SQLite file that persists the cache, serialisable copies of
  the records and one function per front-end command.
- `tests/` exercises the library on concrete values.

Verify with Verus on `src/lib.rs`; the tests are ordinary Rust tests.

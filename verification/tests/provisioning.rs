use idmail::errors::ProvisionError;
use idmail::provision::provision;
use idmail::secrets::FileMap;
use idmail::state::{Alias, Domain, Mailbox, State, User};
use idmail::store::{AliasRecord, DomainRecord, MailboxRecord, Store, UserRecord};
use idmail::table::{Entry, Row};

fn user(name: &str, pw: &str, admin: bool, active: bool) -> Entry<User> {
    Entry {
        key: name.to_string(),
        val: User { password_hash: pw.to_string(), admin, active },
    }
}

fn domain(name: &str, owner: &str, public: bool, active: bool) -> Entry<Domain> {
    Entry {
        key: name.to_string(),
        val: Domain { catch_all: None, public, active, owner: owner.to_string() },
    }
}

fn mailbox(addr: &str, pw: &str, owner: &str, active: bool) -> Entry<Mailbox> {
    Entry {
        key: addr.to_string(),
        val: Mailbox { password_hash: pw.to_string(), api_token: None, active, owner: owner.to_string() },
    }
}

fn mailbox_with_token(addr: &str, pw: &str, token: &str, owner: &str) -> Entry<Mailbox> {
    Entry {
        key: addr.to_string(),
        val: Mailbox {
            password_hash: pw.to_string(),
            api_token: Some(token.to_string()),
            active: true,
            owner: owner.to_string(),
        },
    }
}

fn alias(addr: &str, target: &str, owner: &str) -> Entry<Alias> {
    Entry {
        key: addr.to_string(),
        val: Alias { target: target.to_string(), comment: None, active: true, owner: owner.to_string() },
    }
}

fn find_user<'a>(st: &'a Store, key: &str) -> Option<&'a Row<UserRecord>> {
    st.users.iter().find(|e| e.key == key).map(|e| &e.val)
}

fn find_domain<'a>(st: &'a Store, key: &str) -> Option<&'a Row<DomainRecord>> {
    st.domains.iter().find(|e| e.key == key).map(|e| &e.val)
}

fn find_mailbox<'a>(st: &'a Store, key: &str) -> Option<&'a Row<MailboxRecord>> {
    st.mailboxes.iter().find(|e| e.key == key).map(|e| &e.val)
}

fn find_alias<'a>(st: &'a Store, key: &str) -> Option<&'a Row<AliasRecord>> {
    st.aliases.iter().find(|e| e.key == key).map(|e| &e.val)
}

#[test]
fn end_to_end_scenario() {
    let mut files = FileMap::new();
    files.insert("/secrets/alice".to_string(), "al1ce-hash\n".to_string());
    let doc = State {
        users: vec![user("alice", "%{file:/secrets/alice}%", true, true)],
        domains: vec![domain("example.com", "alice", true, true)],
        mailboxes: vec![mailbox("bob@example.com", "hunter2pass", "alice", true)],
        aliases: vec![alias("info@example.com", "bob@example.com", "bob@example.com")],
    };
    let mut st = Store::new();
    assert_eq!(provision(&mut st, &Some(doc.clone()), &files), Ok(()));

    assert_eq!(st.users.len(), 1);
    assert_eq!(st.domains.len(), 1);
    assert_eq!(st.mailboxes.len(), 1);
    assert_eq!(st.aliases.len(), 1);

    let alice = find_user(&st, "alice").unwrap();
    assert!(alice.provisioned);
    assert_eq!(alice.val.password_hash, "al1ce-hash");
    assert!(alice.val.admin);
    assert!(alice.val.active);

    let dom = find_domain(&st, "example.com").unwrap();
    assert!(dom.provisioned);
    assert!(dom.val.public);
    assert_eq!(dom.val.owner, "alice");
    assert_eq!(dom.val.catch_all, "");

    let bob = find_mailbox(&st, "bob@example.com").unwrap();
    assert!(bob.provisioned);
    assert_eq!(bob.val.domain, "example.com");
    assert_eq!(bob.val.password_hash, "hunter2pass");
    assert_eq!(bob.val.api_token, None);
    assert_eq!(bob.val.owner, "alice");

    let info = find_alias(&st, "info@example.com").unwrap();
    assert!(info.provisioned);
    assert_eq!(info.val.domain, "example.com");
    assert_eq!(info.val.target, "bob@example.com");
    assert_eq!(info.val.owner, "bob@example.com");
    assert_eq!(info.val.comment, "");

    // A second identical run changes nothing.
    let snapshot = st.clone();
    assert_eq!(provision(&mut st, &Some(doc.clone()), &files), Ok(()));
    assert_eq!(st, snapshot);

    // Removing the aliases section deletes the alias row only.
    let mut doc2 = doc.clone();
    doc2.aliases = Vec::new();
    assert_eq!(provision(&mut st, &Some(doc2), &files), Ok(()));
    assert_eq!(st.aliases.len(), 0);
    assert_eq!(st.users.len(), 1);
    assert_eq!(st.domains.len(), 1);
    assert_eq!(st.mailboxes.len(), 1);
}

#[test]
fn idempotent_rerun_changes_nothing() {
    let files = FileMap::new();
    let doc = State {
        users: vec![user("root", "h1", true, true), user("mia", "h2", false, false)],
        domains: vec![domain("mail.test", "mia", false, true)],
        mailboxes: Vec::new(),
        aliases: Vec::new(),
    };
    let mut st = Store::new();
    assert_eq!(provision(&mut st, &Some(doc.clone()), &files), Ok(()));
    let snapshot = st.clone();
    assert_eq!(provision(&mut st, &Some(doc), &files), Ok(()));
    assert_eq!(st, snapshot);
}

#[test]
fn orphan_deleted_on_removal() {
    let files = FileMap::new();
    let doc1 = State {
        users: vec![user("keep", "h1", false, true), user("gone", "h2", false, true)],
        domains: Vec::new(),
        mailboxes: Vec::new(),
        aliases: Vec::new(),
    };
    let mut st = Store::new();
    assert_eq!(provision(&mut st, &Some(doc1), &files), Ok(()));
    assert!(find_user(&st, "gone").is_some());

    let doc2 = State {
        users: vec![user("keep", "h1", false, true)],
        domains: Vec::new(),
        mailboxes: Vec::new(),
        aliases: Vec::new(),
    };
    assert_eq!(provision(&mut st, &Some(doc2), &files), Ok(()));
    assert!(find_user(&st, "gone").is_none());
    assert!(find_user(&st, "keep").is_some());
}

#[test]
fn manual_row_never_deleted() {
    let files = FileMap::new();
    let mut st = Store::new();
    st.put_user(
        "handmade".to_string(),
        UserRecord { password_hash: "h0".to_string(), admin: false, active: true },
        false,
    );
    let doc = State {
        users: vec![user("declared", "h1", false, true)],
        domains: Vec::new(),
        mailboxes: Vec::new(),
        aliases: Vec::new(),
    };
    assert_eq!(provision(&mut st, &Some(doc), &files), Ok(()));
    let handmade = find_user(&st, "handmade").unwrap();
    assert!(!handmade.provisioned);
    assert_eq!(handmade.val.password_hash, "h0");
    assert!(find_user(&st, "declared").unwrap().provisioned);

    // Re-running with an empty users section still leaves the manual row.
    let empty = State::new();
    assert_eq!(provision(&mut st, &Some(empty), &files), Ok(()));
    assert!(find_user(&st, "handmade").is_some());
    assert!(find_user(&st, "declared").is_none());
}

#[test]
fn manual_row_adopted_on_key_collision() {
    let files = FileMap::new();
    let mut st = Store::new();
    st.put_user(
        "alice".to_string(),
        UserRecord { password_hash: "old".to_string(), admin: false, active: false },
        false,
    );
    let doc = State {
        users: vec![user("alice", "new", true, true)],
        domains: Vec::new(),
        mailboxes: Vec::new(),
        aliases: Vec::new(),
    };
    assert_eq!(provision(&mut st, &Some(doc), &files), Ok(()));
    assert_eq!(st.users.len(), 1);
    let alice = find_user(&st, "alice").unwrap();
    assert!(alice.provisioned);
    assert_eq!(alice.val.password_hash, "new");
    assert!(alice.val.admin);
}

#[test]
fn domain_owner_missing_fails_before_write() {
    let files = FileMap::new();
    let mut st = Store::new();
    // A provisioned domain row that would be an orphan: a failing domain
    // pass must not even delete it.
    st.put_domain(
        "stale.test".to_string(),
        DomainRecord {
            catch_all: String::new(),
            public: false,
            active: true,
            owner: "nobody".to_string(),
        },
        true,
    );
    let doc = State {
        users: vec![user("alice", "h1", false, true)],
        domains: vec![domain("example.com", "ghost", false, true)],
        mailboxes: Vec::new(),
        aliases: Vec::new(),
    };
    let r = provision(&mut st, &Some(doc), &files);
    assert_eq!(
        r,
        Err(ProvisionError::DomainOwnerMissing {
            domain: "example.com".to_string(),
            owner: "ghost".to_string(),
        })
    );
    // Users were applied; the domains table was not touched at all.
    assert!(find_user(&st, "alice").is_some());
    assert!(find_domain(&st, "example.com").is_none());
    assert!(find_domain(&st, "stale.test").is_some());
}

#[test]
fn first_domain_error_wins() {
    let files = FileMap::new();
    let mut st = Store::new();
    let doc = State {
        users: Vec::new(),
        domains: vec![
            domain("a.test", "ghost1", false, true),
            domain("b.test", "ghost2", false, true),
        ],
        mailboxes: Vec::new(),
        aliases: Vec::new(),
    };
    assert_eq!(
        provision(&mut st, &Some(doc), &files),
        Err(ProvisionError::DomainOwnerMissing {
            domain: "a.test".to_string(),
            owner: "ghost1".to_string(),
        })
    );
}

#[test]
fn alias_owner_must_be_user_or_mailbox() {
    let files = FileMap::new();
    let base = State {
        users: vec![user("alice", "h1", false, true)],
        domains: vec![domain("example.com", "alice", false, true)],
        mailboxes: vec![mailbox("bob@example.com", "pw", "alice", true)],
        aliases: vec![alias("x@example.com", "t@example.com", "bob@example.com")],
    };
    // Owned by a declared mailbox: succeeds.
    let mut st = Store::new();
    assert_eq!(provision(&mut st, &Some(base.clone()), &files), Ok(()));
    assert!(find_alias(&st, "x@example.com").is_some());

    // Owned by a declared user: succeeds too.
    let mut doc2 = base.clone();
    doc2.aliases = vec![alias("y@example.com", "t@example.com", "alice")];
    let mut st2 = Store::new();
    assert_eq!(provision(&mut st2, &Some(doc2), &files), Ok(()));

    // Owned by nobody declared: fails.
    let mut doc3 = base.clone();
    doc3.aliases = vec![alias("z@example.com", "t@example.com", "carol")];
    let mut st3 = Store::new();
    assert_eq!(
        provision(&mut st3, &Some(doc3), &files),
        Err(ProvisionError::AliasOwnerMissing {
            alias: "z@example.com".to_string(),
            owner: "carol".to_string(),
        })
    );
}

#[test]
fn upsert_overwrite_updates_single_field() {
    let files = FileMap::new();
    let doc1 = State {
        users: vec![user("alice", "h1", false, true)],
        domains: vec![domain("example.com", "alice", false, true)],
        mailboxes: vec![
            mailbox("bob@example.com", "pw-bob", "alice", true),
            mailbox("carol@example.com", "pw-carol", "alice", true),
        ],
        aliases: Vec::new(),
    };
    let mut st = Store::new();
    assert_eq!(provision(&mut st, &Some(doc1.clone()), &files), Ok(()));

    let mut doc2 = doc1.clone();
    doc2.mailboxes[0].val.active = false;
    assert_eq!(provision(&mut st, &Some(doc2), &files), Ok(()));

    let bob = find_mailbox(&st, "bob@example.com").unwrap();
    assert!(bob.provisioned);
    assert!(!bob.val.active);
    assert_eq!(bob.val.password_hash, "pw-bob");
    assert_eq!(bob.val.owner, "alice");
    // The unrelated row is untouched.
    let carol = find_mailbox(&st, "carol@example.com").unwrap();
    assert!(carol.val.active);
    assert_eq!(carol.val.password_hash, "pw-carol");
}

#[test]
fn mailbox_invalid_address() {
    let files = FileMap::new();
    let doc = State {
        users: vec![user("alice", "h1", false, true)],
        domains: vec![domain("example.com", "alice", false, true)],
        mailboxes: vec![mailbox("bobexample.com", "pw", "alice", true)],
        aliases: Vec::new(),
    };
    let mut st = Store::new();
    assert_eq!(
        provision(&mut st, &Some(doc), &files),
        Err(ProvisionError::MailboxInvalidAddress { mailbox: "bobexample.com".to_string() })
    );
}

#[test]
fn mailbox_domain_missing_uses_part_after_first_at() {
    let files = FileMap::new();
    let doc = State {
        users: vec![user("alice", "h1", false, true)],
        domains: vec![domain("example.com", "alice", false, true)],
        mailboxes: vec![mailbox("bob@other.com", "pw", "alice", true)],
        aliases: Vec::new(),
    };
    let mut st = Store::new();
    assert_eq!(
        provision(&mut st, &Some(doc), &files),
        Err(ProvisionError::MailboxDomainMissing {
            mailbox: "bob@other.com".to_string(),
            domain: "other.com".to_string(),
        })
    );

    // The domain part is everything after the first `@`.
    let doc2 = State {
        users: vec![user("alice", "h1", false, true)],
        domains: vec![domain("example.com", "alice", false, true)],
        mailboxes: vec![mailbox("a@b@example.com", "pw", "alice", true)],
        aliases: Vec::new(),
    };
    let mut st2 = Store::new();
    assert_eq!(
        provision(&mut st2, &Some(doc2), &files),
        Err(ProvisionError::MailboxDomainMissing {
            mailbox: "a@b@example.com".to_string(),
            domain: "b@example.com".to_string(),
        })
    );
}

#[test]
fn mailbox_owner_missing() {
    let files = FileMap::new();
    let doc = State {
        users: vec![user("alice", "h1", false, true)],
        domains: vec![domain("example.com", "alice", false, true)],
        mailboxes: vec![mailbox("bob@example.com", "pw", "carol", true)],
        aliases: Vec::new(),
    };
    let mut st = Store::new();
    assert_eq!(
        provision(&mut st, &Some(doc), &files),
        Err(ProvisionError::MailboxOwnerMissing {
            mailbox: "bob@example.com".to_string(),
            owner: "carol".to_string(),
        })
    );
}

#[test]
fn mailbox_api_token_length_policy() {
    let files = FileMap::new();
    let short = State {
        users: vec![user("alice", "h1", false, true)],
        domains: vec![domain("example.com", "alice", false, true)],
        mailboxes: vec![mailbox_with_token("bob@example.com", "pw", "only15chars-15c", "alice")],
        aliases: Vec::new(),
    };
    let mut st = Store::new();
    assert_eq!(
        provision(&mut st, &Some(short), &files),
        Err(ProvisionError::MailboxTokenTooShort { mailbox: "bob@example.com".to_string() })
    );

    let exact = State {
        users: vec![user("alice", "h1", false, true)],
        domains: vec![domain("example.com", "alice", false, true)],
        mailboxes: vec![mailbox_with_token("bob@example.com", "pw", "exactly16chars-x", "alice")],
        aliases: Vec::new(),
    };
    let mut st2 = Store::new();
    assert_eq!(provision(&mut st2, &Some(exact), &files), Ok(()));
    assert_eq!(
        find_mailbox(&st2, "bob@example.com").unwrap().val.api_token,
        Some("exactly16chars-x".to_string())
    );
}

#[test]
fn alias_invalid_address_and_missing_domain() {
    let files = FileMap::new();
    let doc = State {
        users: vec![user("alice", "h1", false, true)],
        domains: vec![domain("example.com", "alice", false, true)],
        mailboxes: Vec::new(),
        aliases: vec![alias("noat", "t", "alice")],
    };
    let mut st = Store::new();
    assert_eq!(
        provision(&mut st, &Some(doc), &files),
        Err(ProvisionError::AliasInvalidAddress { alias: "noat".to_string() })
    );

    let doc2 = State {
        users: vec![user("alice", "h1", false, true)],
        domains: vec![domain("example.com", "alice", false, true)],
        mailboxes: Vec::new(),
        aliases: vec![alias("x@nope.com", "t", "alice")],
    };
    let mut st2 = Store::new();
    assert_eq!(
        provision(&mut st2, &Some(doc2), &files),
        Err(ProvisionError::AliasDomainMissing {
            alias: "x@nope.com".to_string(),
            domain: "nope.com".to_string(),
        })
    );
}

#[test]
fn user_secret_file_unreadable() {
    let files = FileMap::new();
    let doc = State {
        users: vec![user("alice", "%{file:/missing}%", false, true)],
        domains: Vec::new(),
        mailboxes: Vec::new(),
        aliases: Vec::new(),
    };
    let mut st = Store::new();
    assert_eq!(
        provision(&mut st, &Some(doc), &files),
        Err(ProvisionError::SecretFileUnreadable { path: "/missing".to_string() })
    );
    assert_eq!(st.users.len(), 0);
}

#[test]
fn absent_document_is_noop() {
    let files = FileMap::new();
    let mut st = Store::new();
    st.put_user(
        "alice".to_string(),
        UserRecord { password_hash: "h".to_string(), admin: false, active: true },
        true,
    );
    let snapshot = st.clone();
    assert_eq!(provision(&mut st, &None, &files), Ok(()));
    assert_eq!(st, snapshot);
}

#[test]
fn empty_document_removes_all_provisioned_rows() {
    let files = FileMap::new();
    let doc = State {
        users: vec![user("alice", "h1", false, true)],
        domains: vec![domain("example.com", "alice", false, true)],
        mailboxes: vec![mailbox("bob@example.com", "pw", "alice", true)],
        aliases: vec![alias("x@example.com", "t", "alice")],
    };
    let mut st = Store::new();
    assert_eq!(provision(&mut st, &Some(doc), &files), Ok(()));
    assert_eq!(provision(&mut st, &Some(State::new()), &files), Ok(()));
    assert_eq!(st.users.len(), 0);
    assert_eq!(st.domains.len(), 0);
    assert_eq!(st.mailboxes.len(), 0);
    assert_eq!(st.aliases.len(), 0);
}

#[test]
fn domain_catch_all_stored() {
    let files = FileMap::new();
    let doc = State {
        users: vec![user("alice", "h1", false, true)],
        domains: vec![Entry {
            key: "example.com".to_string(),
            val: Domain {
                catch_all: Some("alice@example.com".to_string()),
                public: false,
                active: true,
                owner: "alice".to_string(),
            },
        }],
        mailboxes: Vec::new(),
        aliases: Vec::new(),
    };
    let mut st = Store::new();
    assert_eq!(provision(&mut st, &Some(doc), &files), Ok(()));
    assert_eq!(find_domain(&st, "example.com").unwrap().val.catch_all, "alice@example.com");
}

#[test]
fn default_flags() {
    assert!(idmail::default_true());
    assert!(!idmail::default_false());
}

#[test]
fn orphan_convergence_for_every_kind() {
    let files = FileMap::new();
    let mut st = Store::new();
    // Manual rows of every kind, plus provisioned rows that the (empty)
    // document will orphan.
    st.put_user(
        "manual-user".to_string(),
        UserRecord { password_hash: "h".to_string(), admin: false, active: true },
        false,
    );
    st.put_domain(
        "manual.test".to_string(),
        DomainRecord {
            catch_all: String::new(),
            public: false,
            active: true,
            owner: "manual-user".to_string(),
        },
        false,
    );
    st.put_mailbox(
        "m@manual.test".to_string(),
        MailboxRecord {
            domain: "manual.test".to_string(),
            password_hash: "h".to_string(),
            api_token: None,
            active: true,
            owner: "manual-user".to_string(),
        },
        false,
    );
    st.put_alias(
        "a@manual.test".to_string(),
        AliasRecord {
            domain: "manual.test".to_string(),
            target: "m@manual.test".to_string(),
            comment: String::new(),
            active: true,
            owner: "manual-user".to_string(),
        },
        false,
    );
    st.put_domain(
        "orphan.test".to_string(),
        DomainRecord {
            catch_all: String::new(),
            public: false,
            active: true,
            owner: "gone".to_string(),
        },
        true,
    );
    st.put_mailbox(
        "m@orphan.test".to_string(),
        MailboxRecord {
            domain: "orphan.test".to_string(),
            password_hash: "h".to_string(),
            api_token: None,
            active: true,
            owner: "gone".to_string(),
        },
        true,
    );
    st.put_alias(
        "a@orphan.test".to_string(),
        AliasRecord {
            domain: "orphan.test".to_string(),
            target: "m@orphan.test".to_string(),
            comment: String::new(),
            active: true,
            owner: "gone".to_string(),
        },
        true,
    );

    assert_eq!(provision(&mut st, &Some(State::new()), &files), Ok(()));
    // Provisioned orphans of every kind are gone; manual rows all remain.
    assert!(find_domain(&st, "orphan.test").is_none());
    assert!(find_mailbox(&st, "m@orphan.test").is_none());
    assert!(find_alias(&st, "a@orphan.test").is_none());
    assert!(find_user(&st, "manual-user").is_some());
    assert!(find_domain(&st, "manual.test").is_some());
    assert!(find_mailbox(&st, "m@manual.test").is_some());
    assert!(find_alias(&st, "a@manual.test").is_some());
}

//! The in-memory image of the four entity tables.
//!
//! Each table is a keyed list of rows; a row carries the entity's writable
//! columns and the `provisioned` mark that distinguishes machine-managed
//! rows from manually created ones. The view of a table is a map from
//! primary key to row, which is what every contract speaks about.

use crate::table::{
    entry_map, provisioned_keys, provisioned_keys_of, unique_entry_keys, upsert_entry, Entry, Row,
    RowM,
};
use vstd::prelude::*;

verus! {

/// Writable columns of a user row; the key is the username.
#[derive(Clone, Debug, PartialEq, Eq)]
pub struct UserRecord {
    pub password_hash: String,
    pub admin: bool,
    pub active: bool,
}

/// Mathematical image of a [`UserRecord`].
pub struct UserRecordM {
    pub password_hash: Seq<char>,
    pub admin: bool,
    pub active: bool,
}

impl DeepView for UserRecord {
    type V = UserRecordM;

    open spec fn deep_view(&self) -> UserRecordM {
        UserRecordM {
            password_hash: self.password_hash.deep_view(),
            admin: self.admin,
            active: self.active,
        }
    }
}

/// Writable columns of a domain row; the key is the domain name. A declared
/// catch-all of `None` is stored as the empty string.
#[derive(Clone, Debug, PartialEq, Eq)]
pub struct DomainRecord {
    pub catch_all: String,
    pub public: bool,
    pub active: bool,
    pub owner: String,
}

/// Mathematical image of a [`DomainRecord`].
pub struct DomainRecordM {
    pub catch_all: Seq<char>,
    pub public: bool,
    pub active: bool,
    pub owner: Seq<char>,
}

impl DeepView for DomainRecord {
    type V = DomainRecordM;

    open spec fn deep_view(&self) -> DomainRecordM {
        DomainRecordM {
            catch_all: self.catch_all.deep_view(),
            public: self.public,
            active: self.active,
            owner: self.owner.deep_view(),
        }
    }
}

/// Writable columns of a mailbox row; the key is the full address and
/// `domain` is the part of the address after its first `@`.
#[derive(Clone, Debug, PartialEq, Eq)]
pub struct MailboxRecord {
    pub domain: String,
    pub password_hash: String,
    pub api_token: Option<String>,
    pub active: bool,
    pub owner: String,
}

/// Mathematical image of a [`MailboxRecord`].
pub struct MailboxRecordM {
    pub domain: Seq<char>,
    pub password_hash: Seq<char>,
    pub api_token: Option<Seq<char>>,
    pub active: bool,
    pub owner: Seq<char>,
}

impl DeepView for MailboxRecord {
    type V = MailboxRecordM;

    open spec fn deep_view(&self) -> MailboxRecordM {
        MailboxRecordM {
            domain: self.domain.deep_view(),
            password_hash: self.password_hash.deep_view(),
            api_token: self.api_token.deep_view(),
            active: self.active,
            owner: self.owner.deep_view(),
        }
    }
}

/// Writable columns of an alias row; the key is the full address. A
/// declared comment of `None` is stored as the empty string.
#[derive(Clone, Debug, PartialEq, Eq)]
pub struct AliasRecord {
    pub domain: String,
    pub target: String,
    pub comment: String,
    pub active: bool,
    pub owner: String,
}

/// Mathematical image of an [`AliasRecord`].
pub struct AliasRecordM {
    pub domain: Seq<char>,
    pub target: Seq<char>,
    pub comment: Seq<char>,
    pub active: bool,
    pub owner: Seq<char>,
}

impl DeepView for AliasRecord {
    type V = AliasRecordM;

    open spec fn deep_view(&self) -> AliasRecordM {
        AliasRecordM {
            domain: self.domain.deep_view(),
            target: self.target.deep_view(),
            comment: self.comment.deep_view(),
            active: self.active,
            owner: self.owner.deep_view(),
        }
    }
}

/// The four tables the engine reconciles.
#[derive(Clone, Debug, PartialEq, Eq)]
pub struct Store {
    pub users: Vec<Entry<Row<UserRecord>>>,
    pub domains: Vec<Entry<Row<DomainRecord>>>,
    pub mailboxes: Vec<Entry<Row<MailboxRecord>>>,
    pub aliases: Vec<Entry<Row<AliasRecord>>>,
}

/// Mathematical image of a [`Store`]: one map per table.
pub struct StoreM {
    pub users: Map<Seq<char>, RowM<UserRecordM>>,
    pub domains: Map<Seq<char>, RowM<DomainRecordM>>,
    pub mailboxes: Map<Seq<char>, RowM<MailboxRecordM>>,
    pub aliases: Map<Seq<char>, RowM<AliasRecordM>>,
}

impl View for Store {
    type V = StoreM;

    open spec fn view(&self) -> StoreM {
        StoreM {
            users: entry_map(self.users.deep_view()),
            domains: entry_map(self.domains.deep_view()),
            mailboxes: entry_map(self.mailboxes.deep_view()),
            aliases: entry_map(self.aliases.deep_view()),
        }
    }
}

impl Store {
    /// Every table keys each row at most once.
    pub open spec fn wf(self) -> bool {
        unique_entry_keys(self.users.deep_view()) && unique_entry_keys(self.domains.deep_view())
            && unique_entry_keys(self.mailboxes.deep_view()) && unique_entry_keys(
            self.aliases.deep_view(),
        )
    }

    /// An empty store.
    pub fn new() -> (s: Store)
        ensures
            s.wf(),
            s@.users == Map::<Seq<char>, RowM<UserRecordM>>::empty(),
            s@.domains == Map::<Seq<char>, RowM<DomainRecordM>>::empty(),
            s@.mailboxes == Map::<Seq<char>, RowM<MailboxRecordM>>::empty(),
            s@.aliases == Map::<Seq<char>, RowM<AliasRecordM>>::empty(),
    {
        let s = Store {
            users: Vec::new(),
            domains: Vec::new(),
            mailboxes: Vec::new(),
            aliases: Vec::new(),
        };
        proof {
            assert(s.users.deep_view() =~= Seq::<crate::table::EntryM<RowM<UserRecordM>>>::empty());
            assert(s.domains.deep_view() =~= Seq::<
                crate::table::EntryM<RowM<DomainRecordM>>,
            >::empty());
            assert(s.mailboxes.deep_view() =~= Seq::<
                crate::table::EntryM<RowM<MailboxRecordM>>,
            >::empty());
            assert(s.aliases.deep_view() =~= Seq::<
                crate::table::EntryM<RowM<AliasRecordM>>,
            >::empty());
        }
        s
    }

    /// Put a user row, replacing the row with that key if there is one.
    pub fn put_user(&mut self, username: String, rec: UserRecord, provisioned: bool)
        requires
            old(self).wf(),
        ensures
            final(self).wf(),
            final(self)@.users == old(self)@.users.insert(
                username@,
                RowM { val: rec.deep_view(), provisioned },
            ),
            final(self)@.domains == old(self)@.domains,
            final(self)@.mailboxes == old(self)@.mailboxes,
            final(self)@.aliases == old(self)@.aliases,
    {
        upsert_entry(&mut self.users, username, Row { val: rec, provisioned });
    }

    /// Put a domain row, replacing the row with that key if there is one.
    pub fn put_domain(&mut self, domain: String, rec: DomainRecord, provisioned: bool)
        requires
            old(self).wf(),
        ensures
            final(self).wf(),
            final(self)@.domains == old(self)@.domains.insert(
                domain@,
                RowM { val: rec.deep_view(), provisioned },
            ),
            final(self)@.users == old(self)@.users,
            final(self)@.mailboxes == old(self)@.mailboxes,
            final(self)@.aliases == old(self)@.aliases,
    {
        upsert_entry(&mut self.domains, domain, Row { val: rec, provisioned });
    }

    /// Put a mailbox row, replacing the row with that key if there is one.
    pub fn put_mailbox(&mut self, address: String, rec: MailboxRecord, provisioned: bool)
        requires
            old(self).wf(),
        ensures
            final(self).wf(),
            final(self)@.mailboxes == old(self)@.mailboxes.insert(
                address@,
                RowM { val: rec.deep_view(), provisioned },
            ),
            final(self)@.users == old(self)@.users,
            final(self)@.domains == old(self)@.domains,
            final(self)@.aliases == old(self)@.aliases,
    {
        upsert_entry(&mut self.mailboxes, address, Row { val: rec, provisioned });
    }

    /// Put an alias row, replacing the row with that key if there is one.
    pub fn put_alias(&mut self, address: String, rec: AliasRecord, provisioned: bool)
        requires
            old(self).wf(),
        ensures
            final(self).wf(),
            final(self)@.aliases == old(self)@.aliases.insert(
                address@,
                RowM { val: rec.deep_view(), provisioned },
            ),
            final(self)@.users == old(self)@.users,
            final(self)@.domains == old(self)@.domains,
            final(self)@.mailboxes == old(self)@.mailboxes,
    {
        upsert_entry(&mut self.aliases, address, Row { val: rec, provisioned });
    }
}

/// Which of the four entity tables an operation addresses.
#[derive(Clone, Copy, Debug, PartialEq, Eq)]
pub enum EntityKind {
    Users,
    Domains,
    Mailboxes,
    Aliases,
}

/// The primary keys currently marked provisioned in one table, in table
/// order: the candidates for orphan deletion.
pub fn select_provisioned(store: &Store, kind: EntityKind) -> (r: Vec<String>)
    ensures
        r.deep_view() == match kind {
            EntityKind::Users => provisioned_keys_of(store.users.deep_view()),
            EntityKind::Domains => provisioned_keys_of(store.domains.deep_view()),
            EntityKind::Mailboxes => provisioned_keys_of(store.mailboxes.deep_view()),
            EntityKind::Aliases => provisioned_keys_of(store.aliases.deep_view()),
        },
{
    match kind {
        EntityKind::Users => provisioned_keys(&store.users),
        EntityKind::Domains => provisioned_keys(&store.domains),
        EntityKind::Mailboxes => provisioned_keys(&store.mailboxes),
        EntityKind::Aliases => provisioned_keys(&store.aliases),
    }
}

} // verus!

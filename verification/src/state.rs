//! The desired-state document: four keyed sections declaring users, domains,
//! mailboxes and aliases, together with the lookups that reference validation
//! needs.
//!
//! Sections are kept as ordered lists of keyed entries. The order is the
//! order in which entities are reconciled and decides which failure is
//! reported first; keys are unique in a well-formed document.

use crate::table::{Entry, EntryM, unique_entry_keys};
use vstd::prelude::*;

verus! {

/// A declared user. The key of its entry is the username.
#[derive(Clone, Debug, PartialEq, Eq)]
pub struct User {
    pub password_hash: String,
    pub admin: bool,
    pub active: bool,
}

/// Mathematical image of a [`User`].
pub struct UserM {
    pub password_hash: Seq<char>,
    pub admin: bool,
    pub active: bool,
}

impl DeepView for User {
    type V = UserM;

    open spec fn deep_view(&self) -> UserM {
        UserM {
            password_hash: self.password_hash.deep_view(),
            admin: self.admin,
            active: self.active,
        }
    }
}

/// A declared domain. The key of its entry is the domain name.
#[derive(Clone, Debug, PartialEq, Eq)]
pub struct Domain {
    pub catch_all: Option<String>,
    pub public: bool,
    pub active: bool,
    pub owner: String,
}

/// Mathematical image of a [`Domain`].
pub struct DomainM {
    pub catch_all: Option<Seq<char>>,
    pub public: bool,
    pub active: bool,
    pub owner: Seq<char>,
}

impl DeepView for Domain {
    type V = DomainM;

    open spec fn deep_view(&self) -> DomainM {
        DomainM {
            catch_all: self.catch_all.deep_view(),
            public: self.public,
            active: self.active,
            owner: self.owner.deep_view(),
        }
    }
}

/// A declared mailbox. The key of its entry is the full address.
#[derive(Clone, Debug, PartialEq, Eq)]
pub struct Mailbox {
    pub password_hash: String,
    pub api_token: Option<String>,
    pub active: bool,
    pub owner: String,
}

/// Mathematical image of a [`Mailbox`].
pub struct MailboxM {
    pub password_hash: Seq<char>,
    pub api_token: Option<Seq<char>>,
    pub active: bool,
    pub owner: Seq<char>,
}

impl DeepView for Mailbox {
    type V = MailboxM;

    open spec fn deep_view(&self) -> MailboxM {
        MailboxM {
            password_hash: self.password_hash.deep_view(),
            api_token: self.api_token.deep_view(),
            active: self.active,
            owner: self.owner.deep_view(),
        }
    }
}

/// A declared alias. The key of its entry is the full address.
#[derive(Clone, Debug, PartialEq, Eq)]
pub struct Alias {
    pub target: String,
    pub comment: Option<String>,
    pub active: bool,
    pub owner: String,
}

/// Mathematical image of an [`Alias`].
pub struct AliasM {
    pub target: Seq<char>,
    pub comment: Option<Seq<char>>,
    pub active: bool,
    pub owner: Seq<char>,
}

impl DeepView for Alias {
    type V = AliasM;

    open spec fn deep_view(&self) -> AliasM {
        AliasM {
            target: self.target.deep_view(),
            comment: self.comment.deep_view(),
            active: self.active,
            owner: self.owner.deep_view(),
        }
    }
}

/// The whole desired-state document.
#[derive(Clone, Debug, PartialEq, Eq)]
pub struct State {
    pub users: Vec<Entry<User>>,
    pub domains: Vec<Entry<Domain>>,
    pub mailboxes: Vec<Entry<Mailbox>>,
    pub aliases: Vec<Entry<Alias>>,
}

/// Mathematical image of a [`State`].
pub struct StateM {
    pub users: Seq<EntryM<UserM>>,
    pub domains: Seq<EntryM<DomainM>>,
    pub mailboxes: Seq<EntryM<MailboxM>>,
    pub aliases: Seq<EntryM<AliasM>>,
}

impl DeepView for State {
    type V = StateM;

    open spec fn deep_view(&self) -> StateM {
        StateM {
            users: self.users.deep_view(),
            domains: self.domains.deep_view(),
            mailboxes: self.mailboxes.deep_view(),
            aliases: self.aliases.deep_view(),
        }
    }
}

impl StateM {
    /// A well-formed document names each entity at most once per section.
    pub open spec fn wf(self) -> bool {
        unique_entry_keys(self.users) && unique_entry_keys(self.domains)
            && unique_entry_keys(self.mailboxes) && unique_entry_keys(self.aliases)
    }
}

impl State {
    /// An empty document: nothing declared, so reconciliation removes every
    /// provisioned row and leaves manual rows alone.
    pub fn new() -> (s: State)
        ensures
            s.deep_view().users == Seq::<EntryM<UserM>>::empty(),
            s.deep_view().domains == Seq::<EntryM<DomainM>>::empty(),
            s.deep_view().mailboxes == Seq::<EntryM<MailboxM>>::empty(),
            s.deep_view().aliases == Seq::<EntryM<AliasM>>::empty(),
    {
        let s = State { users: Vec::new(), domains: Vec::new(), mailboxes: Vec::new(), aliases: Vec::new() };
        proof {
            assert(s.deep_view().users =~= Seq::<EntryM<UserM>>::empty());
            assert(s.deep_view().domains =~= Seq::<EntryM<DomainM>>::empty());
            assert(s.deep_view().mailboxes =~= Seq::<EntryM<MailboxM>>::empty());
            assert(s.deep_view().aliases =~= Seq::<EntryM<AliasM>>::empty());
        }
        s
    }
}

} // verus!

//! The failures a reconciliation run can end in. Each names the offending
//! entity and the missing reference, so the caller can report it and abort
//! startup.

use vstd::prelude::*;

verus! {

/// Why a reconciliation run stopped.
#[derive(Clone, Debug, PartialEq, Eq)]
pub enum ProvisionError {
    /// A `%{file:...}%` secret reference could not be resolved.
    SecretFileUnreadable { path: String },
    /// A domain's `owner` is not a declared user.
    DomainOwnerMissing { domain: String, owner: String },
    /// A mailbox address has no `@` separator.
    MailboxInvalidAddress { mailbox: String },
    /// A mailbox address's domain part is not a declared domain.
    MailboxDomainMissing { mailbox: String, domain: String },
    /// A mailbox's `owner` is not a declared user.
    MailboxOwnerMissing { mailbox: String, owner: String },
    /// A mailbox's API token is shorter than the minimum length.
    MailboxTokenTooShort { mailbox: String },
    /// An alias address has no `@` separator.
    AliasInvalidAddress { alias: String },
    /// An alias address's domain part is not a declared domain.
    AliasDomainMissing { alias: String, domain: String },
    /// An alias's `owner` is neither a declared user nor a declared mailbox.
    AliasOwnerMissing { alias: String, owner: String },
}

/// Mathematical image of a [`ProvisionError`].
pub enum ErrM {
    SecretFileUnreadable { path: Seq<char> },
    DomainOwnerMissing { domain: Seq<char>, owner: Seq<char> },
    MailboxInvalidAddress { mailbox: Seq<char> },
    MailboxDomainMissing { mailbox: Seq<char>, domain: Seq<char> },
    MailboxOwnerMissing { mailbox: Seq<char>, owner: Seq<char> },
    MailboxTokenTooShort { mailbox: Seq<char> },
    AliasInvalidAddress { alias: Seq<char> },
    AliasDomainMissing { alias: Seq<char>, domain: Seq<char> },
    AliasOwnerMissing { alias: Seq<char>, owner: Seq<char> },
}

impl DeepView for ProvisionError {
    type V = ErrM;

    open spec fn deep_view(&self) -> ErrM {
        match self {
            ProvisionError::SecretFileUnreadable { path } => ErrM::SecretFileUnreadable {
                path: path.deep_view(),
            },
            ProvisionError::DomainOwnerMissing { domain, owner } => ErrM::DomainOwnerMissing {
                domain: domain.deep_view(),
                owner: owner.deep_view(),
            },
            ProvisionError::MailboxInvalidAddress { mailbox } => ErrM::MailboxInvalidAddress {
                mailbox: mailbox.deep_view(),
            },
            ProvisionError::MailboxDomainMissing { mailbox, domain } => ErrM::MailboxDomainMissing {
                mailbox: mailbox.deep_view(),
                domain: domain.deep_view(),
            },
            ProvisionError::MailboxOwnerMissing { mailbox, owner } => ErrM::MailboxOwnerMissing {
                mailbox: mailbox.deep_view(),
                owner: owner.deep_view(),
            },
            ProvisionError::MailboxTokenTooShort { mailbox } => ErrM::MailboxTokenTooShort {
                mailbox: mailbox.deep_view(),
            },
            ProvisionError::AliasInvalidAddress { alias } => ErrM::AliasInvalidAddress {
                alias: alias.deep_view(),
            },
            ProvisionError::AliasDomainMissing { alias, domain } => ErrM::AliasDomainMissing {
                alias: alias.deep_view(),
                domain: domain.deep_view(),
            },
            ProvisionError::AliasOwnerMissing { alias, owner } => ErrM::AliasOwnerMissing {
                alias: alias.deep_view(),
                owner: owner.deep_view(),
            },
        }
    }
}

} // verus!

//! Declarative provisioning for a mail administration database.
//!
//! A desired-state document declares users, domains, mailboxes and aliases.
//! The engine reconciles a store against the document: it deletes rows that
//! were provisioned earlier but are no longer declared, validates references
//! between entity kinds, and upserts every declared entity with a
//! `provisioned` mark, leaving manually created rows alone.

pub mod api;
pub mod errors;
pub mod laws;
pub mod model;
pub mod provision;
pub mod secrets;
pub mod state;
pub mod store;
pub mod table;
pub mod text;

use vstd::prelude::*;

verus! {

/// Default for boolean fields that are off unless the document declares them.
pub fn default_false() -> (b: bool)
    ensures
        b == false,
{
    false
}

/// Default for boolean fields that are on unless the document declares them.
pub fn default_true() -> (b: bool)
    ensures
        b == true,
{
    true
}

} // verus!

//! Request bodies of the alias-creation endpoints, and the one decision
//! they carry: which domain, if any, the caller asked the new alias to be
//! created under.

use vstd::prelude::*;
use vstd::string::StringExecFns;

verus! {

/// A SimpleLogin-style alias-creation request: only a free-form note that
/// becomes the alias's comment.
pub struct SimpleLoginRequest {
    pub note: String,
}

/// An addy.io-style alias-creation request: a domain wish and an optional
/// description.
pub struct AddyIoRequest {
    pub domain: String,
    pub description: Option<String>,
}

impl AddyIoRequest {
    /// The domain this request pins the alias to: an empty `domain` field or
    /// the word `random` both leave the choice to the server.
    pub fn requested_domain(self) -> (r: Option<String>)
        ensures
            match r {
                Some(d) => d@ == self.domain@ && self.domain@.len() > 0 && self.domain@
                    != "random"@,
                None => self.domain@.len() == 0 || self.domain@ == "random"@,
            },
    {
        let wildcard = String::from_str("random");
        if !self.domain.as_str().is_empty() && !self.domain.eq(&wildcard) {
            Some(self.domain)
        } else {
            None
        }
    }
}

} // verus!

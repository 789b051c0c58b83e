//! Capability strings and policy evaluation results.
use vstd::prelude::*;

use crate::protocol::error::ErrorCode;

verus! {

/// A capability pattern `domain:action:target-glob`, e.g. `fs:write:/session/**`.
#[derive(Debug, Clone, PartialEq, Eq)]
pub struct Capability(pub String);

impl Capability {
    pub fn new(s: &str) -> (r: Self)
        ensures
            r.0@ == s@,
    {
        Capability(s.to_owned())
    }

    pub fn as_str(&self) -> (s: &str)
        ensures
            s@ == self.0@,
    {
        self.0.as_str()
    }
}

/// Outcome of evaluating a policy.
#[derive(Debug, Clone, PartialEq, Eq)]
pub enum PolicyEvaluation {
    /// Allowed.
    Allowed,
    /// The user must approve; the justification says why.
    RequiresApproval { justification: String },
    /// Denied, with a machine-readable code.
    Denied(ErrorCode),
}

} // verus!

//! Typed identifiers: distinct types keep session, branch and call ids apart.
use vstd::prelude::*;

verus! {

/// Session id (`sess_<hex16>`).
#[derive(Debug, Clone, PartialEq, Eq, Hash)]
pub struct SessionId(pub String);

/// Branch id (`main` or `br_<hex16>`).
#[derive(Debug, Clone, PartialEq, Eq, Hash)]
pub struct BranchId(pub String);

/// Tool call id (links a tool call to its result).
#[derive(Debug, Clone, PartialEq, Eq, Hash)]
pub struct CallId(pub String);

impl SessionId {
    pub fn new(s: &str) -> (r: Self)
        ensures
            r.0@ == s@,
    {
        SessionId(s.to_owned())
    }

    pub fn as_str(&self) -> (s: &str)
        ensures
            s@ == self.0@,
    {
        self.0.as_str()
    }

    /// The display form: the id itself.
    pub fn display_string(&self) -> (s: String)
        ensures
            s@ == self.0@,
    {
        self.0.clone()
    }
}

impl BranchId {
    pub fn new(s: &str) -> (r: Self)
        ensures
            r.0@ == s@,
    {
        BranchId(s.to_owned())
    }

    pub fn as_str(&self) -> (s: &str)
        ensures
            s@ == self.0@,
    {
        self.0.as_str()
    }

    /// The display form: the id itself.
    pub fn display_string(&self) -> (s: String)
        ensures
            s@ == self.0@,
    {
        self.0.clone()
    }
}

impl CallId {
    pub fn new(s: &str) -> (r: Self)
        ensures
            r.0@ == s@,
    {
        CallId(s.to_owned())
    }

    pub fn as_str(&self) -> (s: &str)
        ensures
            s@ == self.0@,
    {
        self.0.as_str()
    }

    /// The display form: the id itself.
    pub fn display_string(&self) -> (s: String)
        ensures
            s@ == self.0@,
    {
        self.0.clone()
    }
}

/// Sequence number within a branch: monotonic, from 1.
#[derive(Debug, Clone, Copy, PartialEq, Eq, Hash, PartialOrd, Ord, Structural)]
pub struct SeqNo(pub u64);

impl SeqNo {
    pub fn new(n: u64) -> (r: Self)
        ensures
            r.0 == n,
    {
        SeqNo(n)
    }

    pub fn as_u64(&self) -> (n: u64)
        ensures
            n == self.0,
    {
        self.0
    }
}

} // verus!

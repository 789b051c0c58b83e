//! Query and branch-head shapes of the event store port.
use vstd::prelude::*;

use crate::protocol::ids::{BranchId, SeqNo, SessionId};

verus! {

/// Event read query by (session, branch, seq range).
#[derive(Debug, Clone, PartialEq, Eq)]
pub struct EventQuery {
    pub session_id: SessionId,
    pub branch_id: BranchId,
    /// Only events with seq > seq_gt.
    pub seq_gt: Option<u64>,
    /// Only events with seq <= seq_lte.
    pub seq_lte: Option<u64>,
    /// At most this many events.
    pub limit: Option<u64>,
}

impl EventQuery {
    /// A query for the whole branch.
    pub fn new(session_id: SessionId, branch_id: BranchId) -> (q: Self)
        ensures
            q.session_id == session_id,
            q.branch_id == branch_id,
            q.seq_gt is None,
            q.seq_lte is None,
            q.limit is None,
    {
        EventQuery { session_id, branch_id, seq_gt: None, seq_lte: None, limit: None }
    }
}

/// A branch head (fork/merge bookkeeping).
#[derive(Debug, Clone, PartialEq, Eq)]
pub struct BranchHead {
    pub session_id: SessionId,
    pub branch_id: BranchId,
    /// The branch forked from (None for main).
    pub parent_branch: Option<BranchId>,
    pub head_seq: SeqNo,
    /// The parent's head at the fork (None for main).
    pub forked_at: Option<u64>,
}

} // verus!

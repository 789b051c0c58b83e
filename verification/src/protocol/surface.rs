//! Surface operations carried by message-surface events: `Append` adds to
//! the surface; `Replace { start, end }` masks seq ∈ [start, end] (used by
//! compaction). An inverted interval is a surface violation.
use vstd::prelude::*;

verus! {

#[derive(Debug, Clone, Copy, PartialEq, Eq, Structural)]
pub enum SurfaceOp {
    Append,
    Replace { start: u64, end: u64 },
}

/// Result of folding one event into the projection.
#[derive(Debug, Clone, Copy, PartialEq, Eq, Structural)]
pub enum SurfaceOutcome {
    /// The event does not take part in the surface.
    Ignored,
    /// Folded normally.
    Applied,
    /// Masked `[start, end]`.
    Replaced { start: u64, end: u64 },
}

impl SurfaceOp {
    /// The `(start, end)` interval of a valid `Replace`; `None` for `Append`
    /// and for an inverted interval (which the validator rejects).
    pub fn as_interval(&self) -> (r: Option<(u64, u64)>)
        ensures
            r == match *self {
                SurfaceOp::Replace { start, end } => if start <= end { Some((start, end)) } else { None },
                SurfaceOp::Append => None::<(u64, u64)>,
            },
    {
        match *self {
            SurfaceOp::Append => None,
            SurfaceOp::Replace { start, end } => if start <= end { Some((start, end)) } else { None },
        }
    }
}

} // verus!

//! Builders for the built-in accumulators, each binding an integer id to
//! one kind of the accumulator algebra.

use crate::accumulator::{AccId, AccKind};
use vstd::prelude::*;

verus! {

/// A running (wrapping) sum.
pub fn sum(id: u32) -> (r: AccId)
    ensures
        r == (AccId { id, kind: AccKind::Sum, k: 0 }),
{
    AccId { id, kind: AccKind::Sum, k: 0 }
}

/// The smallest value seen.
pub fn min(id: u32) -> (r: AccId)
    ensures
        r == (AccId { id, kind: AccKind::Min, k: 0 }),
{
    AccId { id, kind: AccKind::Min, k: 0 }
}

/// The largest value seen.
pub fn max(id: u32) -> (r: AccId)
    ensures
        r == (AccId { id, kind: AccKind::Max, k: 0 }),
{
    AccId { id, kind: AccKind::Max, k: 0 }
}

/// The truncated mean of the values seen.
pub fn avg(id: u32) -> (r: AccId)
    ensures
        r == (AccId { id, kind: AccKind::Avg, k: 0 }),
{
    AccId { id, kind: AccKind::Avg, k: 0 }
}

/// The `k` largest values seen, in decreasing order.
pub fn topk(id: u32, k: usize) -> (r: AccId)
    ensures
        r == (AccId { id, kind: AccKind::TopK, k }),
{
    AccId { id, kind: AccKind::TopK, k }
}

/// Whether any delta seen was nonzero.
pub fn any(id: u32) -> (r: AccId)
    ensures
        r == (AccId { id, kind: AccKind::Any, k: 0 }),
{
    AccId { id, kind: AccKind::Any, k: 0 }
}

/// Whether every delta seen was nonzero.
pub fn all(id: u32) -> (r: AccId)
    ensures
        r == (AccId { id, kind: AccKind::All, k: 0 }),
{
    AccId { id, kind: AccKind::All, k: 0 }
}

} // verus!

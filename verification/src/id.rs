//! Ids of object versions, and ranges of them.
use vstd::prelude::*;

verus! {

/// The id of one version of an object. Ids start at `1`, and a version that follows another has
/// the id right after it.
#[derive(Clone, Copy, Debug, PartialEq, Eq, PartialOrd, Ord, Hash, Structural)]
pub struct MonotonicId {
    pub id: u64,
}

impl MonotonicId {
    /// The id with the number `id`.
    pub fn new(id: u64) -> (r: Self)
        ensures
            r.id == id,
    {
        MonotonicId { id }
    }

    /// The id of the first version of an object.
    pub fn initial() -> (r: Self)
        ensures
            r.id == 1,
    {
        MonotonicId { id: 1 }
    }

    /// The number of the id.
    pub fn id(&self) -> (id: u64)
        ensures
            id == self.id,
    {
        self.id
    }

    /// The id of the version that follows this one.
    pub fn next(&self) -> (r: Self)
        requires
            self.id < u64::MAX,
        ensures
            r.id == self.id + 1,
    {
        MonotonicId { id: self.id + 1 }
    }
}

/// One end of a range of ids.
#[derive(Clone, Copy, Debug, PartialEq, Eq, Structural)]
pub enum IdBound {
    Included(MonotonicId),
    Excluded(MonotonicId),
    Unbounded,
}

/// Whether `id` lies between the bounds `from` and `to`.
pub open spec fn in_range(from: IdBound, to: IdBound, id: u64) -> bool {
    &&& match from {
        IdBound::Included(b) => b.id <= id,
        IdBound::Excluded(b) => b.id < id,
        IdBound::Unbounded => true,
    }
    &&& match to {
        IdBound::Included(b) => id <= b.id,
        IdBound::Excluded(b) => id < b.id,
        IdBound::Unbounded => true,
    }
}

/// Whether `id` lies between the bounds `from` and `to`.
pub fn range_contains(from: IdBound, to: IdBound, id: MonotonicId) -> (b: bool)
    ensures
        b == in_range(from, to, id.id),
{
    let above: bool = match from {
        IdBound::Included(b) => b.id <= id.id,
        IdBound::Excluded(b) => b.id < id.id,
        IdBound::Unbounded => true,
    };
    let below: bool = match to {
        IdBound::Included(b) => id.id <= b.id,
        IdBound::Excluded(b) => id.id < b.id,
        IdBound::Unbounded => true,
    };
    above && below
}

} // verus!

//! Index bookkeeping of a position-based soft-body engine: the circular
//! pairing walk over a slice; the particles, springs and shape coverage of a
//! body laid out as a grid; the fixed order of a simulation step and of the
//! collision pairs; and mutable access to two distinct particles at once.
use vstd::prelude::*;

pub mod circular;
pub mod grid;
pub mod schedule;
pub mod slots;

verus! {

/// A list of index pairs, widened to mathematical integers.
pub open spec fn index_pairs(v: Seq<(usize, usize)>) -> Seq<(int, int)> {
    v.map_values(|p: (usize, usize)| (p.0 as int, p.1 as int))
}

/// `x` comes before `y` ordering by the first index, then by the second.
pub open spec fn pair_precedes(x: (int, int), y: (int, int)) -> bool {
    x.0 < y.0 || (x.0 == y.0 && x.1 < y.1)
}

} // verus!

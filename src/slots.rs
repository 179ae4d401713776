//! Mutable access to two distinct slots of one store at once, by splitting
//! the store between them.
use vstd::prelude::*;

verus! {

/// Borrows slots `i` and `j` of `slots` mutably at the same time, slot `i`
/// first. The store is split at the higher index, so the two borrows never
/// alias; whatever is written through them lands in those two slots and
/// nowhere else.
pub fn pair_mut<T>(slots: &mut [T], i: usize, j: usize) -> (r: (&mut T, &mut T))
    requires
        i != j,
        i < old(slots)@.len(),
        j < old(slots)@.len(),
    ensures
        *r.0 == old(slots)@[i as int],
        *r.1 == old(slots)@[j as int],
        final(slots)@ == old(slots)@.update(i as int, *final(r.0)).update(j as int, *final(r.1)),
{
    if i < j {
        let (head, tail) = slots.split_at_mut(j);
        (&mut head[i], &mut tail[0])
    } else {
        let (head, tail) = slots.split_at_mut(i);
        (&mut tail[0], &mut head[j])
    }
}

} // verus!

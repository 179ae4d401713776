//! Pairing each element of a slice with its successor, wrapping around.
use vstd::prelude::*;

verus! {

/// Walks a slice pairwise, the last element paired with the first:
/// `[a, b, c]` yields `(a, b)`, `(b, c)`, `(c, a)`, then nothing.
#[derive(Debug)]
pub struct CircularWindows<'a, T> {
    slice: &'a [T],
    index: usize,
}

/// The pair that the walk over `s` hands out at position `i`.
pub open spec fn circular_pair<T>(s: Seq<T>, i: int) -> (T, T)
    recommends
        0 <= i < s.len(),
{
    (s[i], s[(i + 1) % (s.len() as int)])
}

impl<'a, T> CircularWindows<'a, T> {
    /// The elements being walked.
    pub closed spec fn items(&self) -> Seq<T> {
        self.slice@
    }

    /// How many pairs have been handed out.
    pub closed spec fn position(&self) -> nat {
        self.index as nat
    }

    /// Hands out the next pair, or `None` once every element has led one.
    pub fn next(&mut self) -> (r: Option<(&'a T, &'a T)>)
        ensures
            final(self).items() == old(self).items(),
            old(self).position() < old(self).items().len() ==> {
                &&& r is Some
                &&& (*r.unwrap().0, *r.unwrap().1) == circular_pair(
                    old(self).items(),
                    old(self).position() as int,
                )
                &&& final(self).position() == old(self).position() + 1
            },
            old(self).position() >= old(self).items().len() ==> {
                &&& r is None
                &&& final(self).position() == old(self).position()
            },
    {
        let len = self.slice.len();
        if len == 0 || self.index >= len {
            return None;
        }
        let first = &self.slice[self.index];
        let second = &self.slice[(self.index + 1) % len];
        self.index = self.index + 1;
        Some((first, second))
    }
}

/// Starts a circular pairing walk over `self`.
pub trait CircularWindowsExt<T> {
    fn circular_windows(&self) -> CircularWindows<'_, T>;
}

impl<T> CircularWindowsExt<T> for [T] {
    fn circular_windows(&self) -> (r: CircularWindows<'_, T>)
        ensures
            r.items() == self@,
            r.position() == 0,
    {
        CircularWindows { slice: self, index: 0 }
    }
}

} // verus!

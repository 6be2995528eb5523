//! Logical slot numbers.

use vstd::prelude::*;

verus! {

/// A strictly increasing unit of logical time that orders blocks and
/// transactions. It does not correspond to wall-clock time.
#[derive(Clone, Copy, Debug, PartialEq, Eq, Structural, PartialOrd, Ord, Hash)]
pub struct Slot(u64);

impl View for Slot {
    type V = u64;

    closed spec fn view(&self) -> u64 {
        self.0
    }
}

impl Slot {
    /// The slot with the given number.
    pub fn new(value: u64) -> (s: Self)
        ensures
            s@ == value,
    {
        Self(value)
    }

    /// The slot's number.
    pub fn value(&self) -> (v: u64)
        ensures
            v == self@,
    {
        self.0
    }

    /// The slot after this one.
    pub fn next(self) -> (s: Self)
        requires
            self@ < u64::MAX,
        ensures
            s@ == self@ + 1,
    {
        Self(self.0 + 1)
    }

    /// A slot is determined by its number.
    pub proof fn lemma_injective(self, other: Self)
        requires
            self@ == other@,
        ensures
            self == other,
    {
    }
}

} // verus!

//! Logical epoch numbers.

use vstd::prelude::*;

verus! {

/// A grouping of epochs, the unit of protocol-wide transitions such as
/// validator set changes, reward calculation and governance windows.
#[derive(Clone, Copy, Debug, PartialEq, Eq, Structural, PartialOrd, Ord, Hash)]
pub struct Epoch(u64);

impl View for Epoch {
    type V = u64;

    closed spec fn view(&self) -> u64 {
        self.0
    }
}

impl Epoch {
    /// The epoch with the given number.
    pub fn new(value: u64) -> (s: Self)
        ensures
            s@ == value,
    {
        Self(value)
    }

    /// The epoch's number.
    pub fn value(&self) -> (v: u64)
        ensures
            v == self@,
    {
        self.0
    }

    /// The epoch after this one.
    pub fn next(self) -> (s: Self)
        requires
            self@ < u64::MAX,
        ensures
            s@ == self@ + 1,
    {
        Self(self.0 + 1)
    }

    /// A epoch is determined by its number.
    pub proof fn lemma_injective(self, other: Self)
        requires
            self@ == other@,
        ensures
            self == other,
    {
    }
}

} // verus!

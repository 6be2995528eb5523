//! 32-byte account addresses.

use vstd::prelude::*;

verus! {

/// Length in bytes of an address.
pub const ADDRESS_LENGTH: usize = 32;

/// A fixed-size identifier of a user account, a contract or a
/// protocol-owned object. It carries no meaning beyond identity.
#[derive(Clone, Copy, Debug, Eq, Hash)]
pub struct Address([u8; ADDRESS_LENGTH]);

impl View for Address {
    type V = Seq<u8>;

    closed spec fn view(&self) -> Seq<u8> {
        self.0@
    }
}

impl PartialEq for Address {
    fn eq(&self, other: &Self) -> (r: bool) {
        let mut i: usize = 0;
        while i < ADDRESS_LENGTH
            invariant
                i <= ADDRESS_LENGTH,
                forall|j: int| 0 <= j < i ==> self.0[j] == other.0[j],
            decreases ADDRESS_LENGTH - i,
        {
            if self.0[i] != other.0[i] {
                return false;
            }
            i += 1;
        }
        assert(self.0 =~= other.0);
        true
    }
}

impl vstd::std_specs::cmp::PartialEqSpecImpl for Address {
    open spec fn obeys_eq_spec() -> bool {
        true
    }

    open spec fn eq_spec(&self, other: &Self) -> bool {
        *self == *other
    }
}

impl Address {
    /// Wraps 32 raw bytes. No semantic validation is done.
    pub fn new(bytes: [u8; ADDRESS_LENGTH]) -> (a: Self)
        ensures
            a@ == bytes@,
    {
        Self(bytes)
    }

    /// The underlying bytes.
    pub fn as_bytes(&self) -> (bytes: &[u8; ADDRESS_LENGTH])
        ensures
            bytes@ == self@,
    {
        &self.0
    }

    /// The address whose bytes are all zero: a placeholder, never a valid
    /// user or owner.
    pub fn zero() -> (a: Self)
        ensures
            a@ == Seq::new(32, |i: int| 0u8),
    {
        let a = Self([0u8; ADDRESS_LENGTH]);
        assert(a@ =~= Seq::new(32, |i: int| 0u8));
        a
    }

    /// Every address has exactly 32 bytes.
    pub proof fn lemma_len(self)
        ensures
            self@.len() == 32,
    {
    }

    /// An address is determined by its bytes.
    pub proof fn lemma_injective(self, other: Self)
        requires
            self@ == other@,
        ensures
            self == other,
    {
        assert(self.0 =~= other.0);
    }
}

} // verus!

//! Identifiers of state objects.

use vstd::prelude::*;
use crate::bytes::lex_lt;
use crate::types::hash;

verus! {

/// The opaque identifier of one piece of on-chain state. It is typically
/// derived by hashing, and carries no embedded meaning.
#[derive(Clone, Copy, Debug, Eq, Hash, PartialOrd, Ord)]
pub struct ObjectId(hash::Hash);

impl View for ObjectId {
    type V = Seq<u8>;

    closed spec fn view(&self) -> Seq<u8> {
        self.0@
    }
}

impl PartialEq for ObjectId {
    fn eq(&self, other: &Self) -> (r: bool) {
        self.0 == other.0
    }
}

impl vstd::std_specs::cmp::PartialEqSpecImpl for ObjectId {
    open spec fn obeys_eq_spec() -> bool {
        true
    }

    open spec fn eq_spec(&self, other: &Self) -> bool {
        *self == *other
    }
}

impl ObjectId {
    /// The identifier that wraps `hash`.
    pub fn new(hash: hash::Hash) -> (id: Self)
        ensures
            id@ == hash@,
    {
        Self(hash)
    }

    /// The wrapped hash.
    pub fn as_hash(&self) -> (hash: &hash::Hash)
        ensures
            hash@ == self@,
    {
        &self.0
    }

    /// Whether `self` comes strictly before `other` in the canonical order
    /// of identifiers, the byte-lexicographic order of their hashes.
    pub fn precedes(&self, other: &Self) -> (r: bool)
        ensures
            r == self.spec_precedes(*other),
    {
        self.0.precedes(&other.0)
    }

    /// The canonical order of identifiers.
    pub open spec fn spec_precedes(self, other: Self) -> bool {
        lex_lt(self@, other@)
    }

    /// The identifier whose bytes are `bytes`.
    pub open spec fn from_bytes(bytes: Seq<u8>) -> Self {
        choose|id: Self| id@ == bytes
    }

    /// An identifier is the one that its bytes name.
    pub proof fn lemma_from_bytes(self)
        ensures
            Self::from_bytes(self@) == self,
    {
        let other = Self::from_bytes(self@);
        assert(other@ == self@);
        other.lemma_injective(self);
    }

    /// Every identifier has exactly 32 bytes.
    pub proof fn lemma_len(self)
        ensures
            self@.len() == 32,
    {
        self.0.lemma_len();
    }

    /// An identifier is determined by its bytes.
    pub proof fn lemma_injective(self, other: Self)
        requires
            self@ == other@,
        ensures
            self == other,
    {
        self.0.lemma_injective(other.0);
    }
}

} // verus!

//! 32-byte hash values and their byte-lexicographic order.

use vstd::prelude::*;
use vstd::relations::{sorted_by, total_ordering};
use vstd::seq_lib::lemma_sorted_unique;
use crate::bytes::{
    first_difference, lemma_lex_lt_asymmetric, lemma_lex_lt_total, lemma_lex_lt_transitive, lex_lt,
};

verus! {

/// Length in bytes of a hash.
pub const HASH_LENGTH: usize = 32;

/// The output of the protocol's hash function: block and transaction
/// identifiers, state roots, receipts roots.
#[derive(Clone, Copy, Debug, Eq, Hash, PartialOrd, Ord)]
pub struct Hash([u8; HASH_LENGTH]);

impl View for Hash {
    type V = Seq<u8>;

    closed spec fn view(&self) -> Seq<u8> {
        self.0@
    }
}

impl PartialEq for Hash {
    fn eq(&self, other: &Self) -> (r: bool) {
        let mut i: usize = 0;
        while i < HASH_LENGTH
            invariant
                i <= HASH_LENGTH,
                forall|j: int| 0 <= j < i ==> self.0[j] == other.0[j],
            decreases HASH_LENGTH - i,
        {
            if self.0[i] != other.0[i] {
                return false;
            }
            i += 1;
        }
        assert(self.0 =~= other.0);
        true
    }
}

impl vstd::std_specs::cmp::PartialEqSpecImpl for Hash {
    open spec fn obeys_eq_spec() -> bool {
        true
    }

    open spec fn eq_spec(&self, other: &Self) -> bool {
        *self == *other
    }
}

impl Hash {
    /// Wraps 32 raw bytes.
    pub fn new(bytes: [u8; HASH_LENGTH]) -> (h: Self)
        ensures
            h@ == bytes@,
    {
        Self(bytes)
    }

    /// The underlying bytes.
    pub fn as_bytes(&self) -> (bytes: &[u8; HASH_LENGTH])
        ensures
            bytes@ == self@,
    {
        &self.0
    }

    /// The hash whose bytes are all zero.
    pub fn zero() -> (h: Self)
        ensures
            h@ == Seq::new(32, |i: int| 0u8),
    {
        let h = Self([0u8; HASH_LENGTH]);
        assert(h@ =~= Seq::new(32, |i: int| 0u8));
        h
    }

    /// Whether `self` comes strictly before `other` in byte-lexicographic order.
    pub fn precedes(&self, other: &Self) -> (r: bool)
        ensures
            r == lex_lt(self@, other@),
    {
        let mut i: usize = 0;
        while i < HASH_LENGTH
            invariant
                i <= HASH_LENGTH,
                forall|j: int| 0 <= j < i ==> self.0[j] == other.0[j],
            decreases HASH_LENGTH - i,
        {
            if self.0[i] != other.0[i] {
                assert(first_difference(self@, other@, i as int));
                assert(first_difference(other@, self@, i as int));
                proof {
                    if lex_lt(self@, other@) {
                        let k = choose|k: int| first_difference(self@, other@, k) && self@[k] < other@[k];
                        assert(k == i);
                    }
                }
                return self.0[i] < other.0[i];
            }
            i += 1;
        }
        proof {
            if lex_lt(self@, other@) {
                let k = choose|k: int| first_difference(self@, other@, k) && self@[k] < other@[k];
                assert(self.0[k] == other.0[k]);
            }
        }
        false
    }

    /// The hash whose bytes are `bytes`.
    pub open spec fn from_bytes(bytes: Seq<u8>) -> Self {
        choose|h: Self| h@ == bytes
    }

    /// A hash is the one that its bytes name.
    pub proof fn lemma_from_bytes(self)
        ensures
            Self::from_bytes(self@) == self,
    {
        let other = Self::from_bytes(self@);
        assert(other@ == self@);
        other.lemma_injective(self);
    }

    /// Every hash has exactly 32 bytes.
    pub proof fn lemma_len(self)
        ensures
            self@.len() == 32,
    {
    }

    /// A hash is determined by its bytes.
    pub proof fn lemma_injective(self, other: Self)
        requires
            self@ == other@,
        ensures
            self == other,
    {
        assert(self.0 =~= other.0);
    }
}

/// The order in which hashes are arranged before they are hashed
/// together: byte-lexicographic, equal hashes side by side.
pub open spec fn hash_leq() -> spec_fn(Hash, Hash) -> bool {
    |a: Hash, b: Hash| a == b || lex_lt(a@, b@)
}

/// The hashes of `hashes` in ascending order, each as often as it occurs.
pub open spec fn sorted_hashes(hashes: Seq<Hash>) -> Seq<Hash> {
    hashes.sort_by(hash_leq())
}

/// The bytes of the hashes of `hashes`, one hash after another.
pub open spec fn concat_hashes(hashes: Seq<Hash>) -> Seq<u8>
    decreases hashes.len(),
{
    if hashes.len() == 0 {
        Seq::empty()
    } else {
        concat_hashes(hashes.drop_last()) + hashes.last()@
    }
}

/// The byte-lexicographic order on hashes is a total order.
pub proof fn lemma_hash_order_total()
    ensures
        total_ordering(hash_leq()),
{
    let leq = hash_leq();
    assert forall|a: Hash, b: Hash| #[trigger] leq(a, b) && #[trigger] leq(b, a) implies a == b by {
        lemma_lex_lt_asymmetric(a@, b@);
    }
    assert forall|a: Hash, b: Hash, c: Hash| #[trigger] leq(a, b) && #[trigger] leq(b, c) implies leq(
        a,
        c,
    ) by {
        if a != b && b != c {
            lemma_lex_lt_transitive(a@, b@, c@);
        }
    }
    assert forall|a: Hash, b: Hash| #[trigger] leq(a, b) || #[trigger] leq(b, a) by {
        a.lemma_len();
        b.lemma_len();
        lemma_lex_lt_total(a@, b@);
        if a@ == b@ {
            a.lemma_injective(b);
        }
    }
}

/// What sorting means: the result is ascending and holds each hash as
/// often as the input does. There is only one such arrangement.
pub proof fn lemma_sorted_hashes(hashes: Seq<Hash>, arranged: Seq<Hash>)
    ensures
        sorted_by(sorted_hashes(hashes), hash_leq()),
        sorted_hashes(hashes).to_multiset() == hashes.to_multiset(),
        sorted_by(arranged, hash_leq()) && arranged.to_multiset() == hashes.to_multiset()
            ==> arranged == sorted_hashes(hashes),
{
    lemma_hash_order_total();
    hashes.lemma_sort_by_ensures(hash_leq());
    if sorted_by(arranged, hash_leq()) && arranged.to_multiset() == hashes.to_multiset() {
        lemma_sorted_unique(arranged, sorted_hashes(hashes), hash_leq());
    }
}

/// Sorts hashes into ascending order.
pub fn sort_hashes(hashes: Vec<Hash>) -> (sorted: Vec<Hash>)
    ensures
        sorted@ == sorted_hashes(hashes@),
{
    broadcast use vstd::seq_lib::group_to_multiset_ensures;

    let ghost leq = hash_leq();
    let mut out: Vec<Hash> = Vec::new();
    let mut i: usize = 0;
    assert(hashes@.take(0) =~= Seq::<Hash>::empty());
    while i < hashes.len()
        invariant
            i <= hashes.len(),
            leq == hash_leq(),
            sorted_by(out@, leq),
            out@.to_multiset() == hashes@.take(i as int).to_multiset(),
        decreases hashes.len() - i,
    {
        let h = hashes[i];
        let mut p: usize = 0;
        while p < out.len() && !h.precedes(&out[p])
            invariant
                p <= out.len(),
                leq == hash_leq(),
                forall|k: int| 0 <= k < p ==> leq(#[trigger] out[k], h),
            decreases out.len() - p,
        {
            proof {
                let o = out[p as int];
                o.lemma_len();
                h.lemma_len();
                lemma_lex_lt_total(o@, h@);
                if o@ == h@ {
                    o.lemma_injective(h);
                }
            }
            p += 1;
        }
        let ghost before = out@;
        out.insert(p, h);
        proof {
            assert forall|a: int, b: int| 0 <= a < b < out@.len() implies leq(out@[a], out@[b]) by {
                if b < p {
                    assert(leq(before[a], before[b]));
                } else if b == p {
                    assert(leq(before[a], h));
                } else if a == p {
                    assert(lex_lt(h@, before[p as int]@));
                    if b - 1 > p {
                        assert(leq(before[p as int], before[b - 1]));
                        if before[p as int] != before[b - 1] {
                            lemma_lex_lt_transitive(h@, before[p as int]@, before[b - 1]@);
                        }
                    }
                } else if a < p {
                    assert(leq(before[a], before[b - 1]));
                } else {
                    assert(leq(before[a - 1], before[b - 1]));
                }
            }
            assert(hashes@.take(i + 1) =~= hashes@.take(i as int).push(h));
            vstd::seq_lib::to_multiset_insert(before, p as int, h);
            vstd::seq_lib::to_multiset_build(hashes@.take(i as int), h);
            assert(out@ == before.insert(p as int, h));
        }
        i += 1;
    }
    proof {
        assert(hashes@.take(hashes.len() as int) =~= hashes@);
        lemma_sorted_hashes(hashes@, out@);
    }
    out
}

} // verus!

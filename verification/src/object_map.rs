//! A map from object identifiers to values that keeps its entries in the
//! canonical order of identifiers, so that every walk over it is
//! deterministic.

use vstd::prelude::*;
use crate::bytes::{lemma_lex_lt_asymmetric, lemma_lex_lt_total, lemma_lex_lt_transitive};
use crate::types::ObjectId;

verus! {

/// Each identifier of the sequence comes strictly before all later ones.
pub open spec fn ascending(ids: Seq<ObjectId>) -> bool {
    forall|i: int, j: int|
        #![trigger ids[i], ids[j]]
        0 <= i < j < ids.len() ==> ids[i].spec_precedes(ids[j])
}

/// `ids` holds exactly the members of `dom`, in ascending order.
pub open spec fn lists(ids: Seq<ObjectId>, dom: Set<ObjectId>) -> bool {
    &&& ascending(ids)
    &&& forall|id: ObjectId| dom.contains(id) <==> ids.contains(id)
}

/// The members of `dom` in ascending order: the canonical order in which
/// a set of identifiers is walked and hashed.
pub open spec fn ordered_ids(dom: Set<ObjectId>) -> Seq<ObjectId> {
    choose|ids: Seq<ObjectId>| lists(ids, dom)
}

/// `dom` has a canonical listing: it is finite. The key set of every
/// `ObjectMap` is.
pub open spec fn listable(dom: Set<ObjectId>) -> bool {
    lists(ordered_ids(dom), dom)
}

/// `id` is the first member of `dom`, in canonical order, of which `p` holds.
pub open spec fn is_first_where(id: ObjectId, dom: Set<ObjectId>, p: spec_fn(ObjectId) -> bool) -> bool {
    &&& dom.contains(id)
    &&& p(id)
    &&& forall|other: ObjectId| dom.contains(other) && p(other) && other != id ==> id.spec_precedes(other)
}

/// No identifier comes before itself.
pub proof fn lemma_precedes_irreflexive(a: ObjectId)
    ensures
        !a.spec_precedes(a),
{
    lemma_lex_lt_asymmetric(a@, a@);
}

/// Of two identifiers at most one comes before the other.
pub proof fn lemma_precedes_asymmetric(a: ObjectId, b: ObjectId)
    ensures
        !(a.spec_precedes(b) && b.spec_precedes(a)),
{
    lemma_lex_lt_asymmetric(a@, b@);
}

/// The canonical order is transitive.
pub proof fn lemma_precedes_transitive(a: ObjectId, b: ObjectId, c: ObjectId)
    requires
        a.spec_precedes(b),
        b.spec_precedes(c),
    ensures
        a.spec_precedes(c),
{
    lemma_lex_lt_transitive(a@, b@, c@);
}

/// Of two different identifiers one comes before the other.
pub proof fn lemma_precedes_total(a: ObjectId, b: ObjectId)
    ensures
        a == b || a.spec_precedes(b) || b.spec_precedes(a),
{
    a.lemma_len();
    b.lemma_len();
    lemma_lex_lt_total(a@, b@);
    if a@ == b@ {
        a.lemma_injective(b);
    }
}

/// In an ascending sequence no identifier occurs twice.
pub proof fn lemma_ascending_distinct(ids: Seq<ObjectId>, i: int, j: int)
    requires
        ascending(ids),
        0 <= i < ids.len(),
        0 <= j < ids.len(),
        ids[i] == ids[j],
    ensures
        i == j,
{
    lemma_precedes_irreflexive(ids[i]);
    if i < j {
        assert(ids[i].spec_precedes(ids[j]));
    } else if j < i {
        assert(ids[j].spec_precedes(ids[i]));
    }
}

/// A set of identifiers has at most one ascending listing.
pub proof fn lemma_listing_unique(a: Seq<ObjectId>, b: Seq<ObjectId>, dom: Set<ObjectId>)
    requires
        lists(a, dom),
        lists(b, dom),
    ensures
        a == b,
    decreases a.len(),
{
    if a.len() == 0 {
        if b.len() > 0 {
            assert(b.contains(b[0]));
            assert(a.contains(b[0]));
        }
        assert(a =~= b);
    } else {
        assert(a.contains(a[0]));
        assert(b.contains(a[0]));
        let j = choose|j: int| 0 <= j < b.len() && b[j] == a[0];
        assert(b.contains(b[0]));
        assert(a.contains(b[0]));
        let i = choose|i: int| 0 <= i < a.len() && a[i] == b[0];
        if j > 0 {
            assert(b[0].spec_precedes(b[j]));
            if i > 0 {
                assert(a[0].spec_precedes(a[i]));
            }
            lemma_precedes_asymmetric(a[0], b[0]);
            lemma_precedes_irreflexive(a[0]);
        }
        assert(a[0] == b[0]);
        let first = a[0];
        let a1 = a.drop_first();
        let b1 = b.drop_first();
        let dom1 = dom.remove(first);
        assert forall|id: ObjectId| dom1.contains(id) <==> a1.contains(id) by {
            if dom1.contains(id) {
                assert(a.contains(id));
                let k = choose|k: int| 0 <= k < a.len() && a[k] == id;
                assert(a1[k - 1] == id);
            }
            if a1.contains(id) {
                let k = choose|k: int| 0 <= k < a1.len() && a1[k] == id;
                assert(a[k + 1] == id);
                assert(a.contains(id));
                if id == first {
                    lemma_ascending_distinct(a, 0, k + 1);
                }
            }
        }
        assert forall|id: ObjectId| dom1.contains(id) <==> b1.contains(id) by {
            if dom1.contains(id) {
                assert(b.contains(id));
                let k = choose|k: int| 0 <= k < b.len() && b[k] == id;
                assert(b1[k - 1] == id);
            }
            if b1.contains(id) {
                let k = choose|k: int| 0 <= k < b1.len() && b1[k] == id;
                assert(b[k + 1] == id);
                assert(b.contains(id));
                if id == first {
                    lemma_ascending_distinct(b, 0, k + 1);
                }
            }
        }
        assert(ascending(a1)) by {
            assert forall|x: int, y: int| 0 <= x < y < a1.len() implies a1[x].spec_precedes(a1[y]) by {
                assert(a[x + 1].spec_precedes(a[y + 1]));
            }
        }
        assert(ascending(b1)) by {
            assert forall|x: int, y: int| 0 <= x < y < b1.len() implies b1[x].spec_precedes(b1[y]) by {
                assert(b[x + 1].spec_precedes(b[y + 1]));
            }
        }
        lemma_listing_unique(a1, b1, dom1);
        assert(a =~= seq![first] + a1);
        assert(b =~= seq![first] + b1);
    }
}

/// Whatever ascending sequence lists `dom` is its canonical listing.
pub proof fn lemma_listing_is_ordered(ids: Seq<ObjectId>, dom: Set<ObjectId>)
    requires
        lists(ids, dom),
    ensures
        ordered_ids(dom) == ids,
{
    lemma_listing_unique(ordered_ids(dom), ids, dom);
}

/// In a listing, the first position where `p` holds names the first member
/// of the set of which `p` holds.
pub proof fn lemma_first_position(
    ids: Seq<ObjectId>,
    dom: Set<ObjectId>,
    p: spec_fn(ObjectId) -> bool,
    i: int,
)
    requires
        lists(ids, dom),
        0 <= i < ids.len(),
        p(ids[i]),
        forall|j: int| 0 <= j < i ==> !p(#[trigger] ids[j]),
    ensures
        is_first_where(ids[i], dom, p),
{
    assert(ids.contains(ids[i]));
    assert forall|other: ObjectId| dom.contains(other) && p(other) && other != ids[i] implies ids[i].spec_precedes(
        other,
    ) by {
        assert(ids.contains(other));
        let k = choose|k: int| 0 <= k < ids.len() && ids[k] == other;
        assert(k > i);
        assert(ids[i].spec_precedes(ids[k]));
    }
}

/// In a listing, where `p` holds at no position it holds of no member of the set.
pub proof fn lemma_no_position(ids: Seq<ObjectId>, dom: Set<ObjectId>, p: spec_fn(ObjectId) -> bool)
    requires
        lists(ids, dom),
        forall|j: int| 0 <= j < ids.len() ==> !p(#[trigger] ids[j]),
    ensures
        forall|id: ObjectId| dom.contains(id) ==> !p(id),
{
    assert forall|id: ObjectId| dom.contains(id) implies !p(id) by {
        assert(ids.contains(id));
        let k = choose|k: int| 0 <= k < ids.len() && ids[k] == id;
        assert(!p(ids[k]));
    }
}

/// In a set that has a listing, where `p` holds of some member there is a
/// first member of which it holds.
pub proof fn lemma_some_first(dom: Set<ObjectId>, p: spec_fn(ObjectId) -> bool, id: ObjectId)
    requires
        listable(dom),
        dom.contains(id),
        p(id),
    ensures
        exists|first: ObjectId| is_first_where(first, dom, p),
{
    let ids = ordered_ids(dom);
    assert(ids.contains(id));
    let k = choose|k: int| 0 <= k < ids.len() && ids[k] == id;
    let i = lemma_first_index(ids, p, k);
    lemma_first_position(ids, dom, p, i);
}

/// The first position of a sequence at which `p` holds, given one at which it does.
proof fn lemma_first_index(ids: Seq<ObjectId>, p: spec_fn(ObjectId) -> bool, k: int) -> (i: int)
    requires
        0 <= k < ids.len(),
        p(ids[k]),
    ensures
        0 <= i <= k,
        p(ids[i]),
        forall|j: int| 0 <= j < i ==> !p(#[trigger] ids[j]),
    decreases k,
{
    if exists|j: int| 0 <= j < k && p(#[trigger] ids[j]) {
        let j = choose|j: int| 0 <= j < k && p(#[trigger] ids[j]);
        lemma_first_index(ids, p, j)
    } else {
        k
    }
}

/// There is at most one first member of which `p` holds.
pub proof fn lemma_first_where_unique(
    a: ObjectId,
    b: ObjectId,
    dom: Set<ObjectId>,
    p: spec_fn(ObjectId) -> bool,
)
    requires
        is_first_where(a, dom, p),
        is_first_where(b, dom, p),
    ensures
        a == b,
{
    lemma_precedes_asymmetric(a, b);
}

/// A map overlaid with the entries of `added` under the identifiers in `done`.
spec fn overlaid<T>(base: Map<ObjectId, T>, added: Map<ObjectId, T>, done: Seq<ObjectId>) -> Map<
    ObjectId,
    T,
> {
    Map::new(
        |id: ObjectId| base.contains_key(id) || done.contains(id),
        |id: ObjectId|
            if done.contains(id) {
                added[id]
            } else {
                base[id]
            },
    )
}

/// A map keyed by object identifier. Its entries are held, and handed out,
/// in the canonical order of their identifiers.
#[derive(Debug)]
pub struct ObjectMap<V> {
    entries: Vec<(ObjectId, V)>,
}

impl<V: View> View for ObjectMap<V> {
    type V = Map<ObjectId, V::V>;

    closed spec fn view(&self) -> Map<ObjectId, V::V> {
        Map::new(
            |id: ObjectId| exists|i: int| 0 <= i < self.entries.len() && self.entries[i].0 == id,
            |id: ObjectId| self.entries[self.index_of(id)].1@,
        )
    }
}

impl<V> ObjectMap<V> {
    /// The entries are strictly ascending by identifier.
    #[verifier::type_invariant]
    closed spec fn sorted(self) -> bool {
        ascending(self.ids())
    }

    /// The identifiers of the entries, in the order in which they are held.
    closed spec fn ids(self) -> Seq<ObjectId> {
        Seq::new(self.entries.len() as nat, |i: int| self.entries[i].0)
    }

    /// A position at which `id` is held, if it is held at all.
    closed spec fn index_of(self, id: ObjectId) -> int {
        choose|i: int| 0 <= i < self.entries.len() && self.entries[i].0 == id
    }
}

impl<V: View> ObjectMap<V> {
    /// What the entries say about the view, given that they are ascending.
    proof fn lemma_entries(self)
        requires
            self.sorted(),
        ensures
            lists(self.ids(), self@.dom()),
            ordered_ids(self@.dom()) == self.ids(),
            self.ids().len() == self.entries.len(),
            forall|i: int|
                0 <= i < self.entries.len() ==> self@.contains_key(#[trigger] self.entries[i].0)
                    && self@[self.entries[i].0] == self.entries[i].1@,
    {
        let ids = self.ids();
        assert forall|id: ObjectId| self@.dom().contains(id) <==> ids.contains(id) by {
            if self@.dom().contains(id) {
                let i = choose|i: int| 0 <= i < self.entries.len() && self.entries[i].0 == id;
                assert(ids[i] == id);
            }
            if ids.contains(id) {
                let i = choose|i: int| 0 <= i < ids.len() && ids[i] == id;
                assert(self.entries[i].0 == id);
            }
        }
        lemma_listing_is_ordered(ids, self@.dom());
        assert forall|i: int| 0 <= i < self.entries.len() implies self@.contains_key(
            #[trigger] self.entries[i].0,
        ) && self@[self.entries[i].0] == self.entries[i].1@ by {
            let id = self.entries[i].0;
            assert(exists|k: int| 0 <= k < self.entries.len() && self.entries[k].0 == id);
            let k = self.index_of(id);
            assert(ids[k] == ids[i]);
            lemma_ascending_distinct(ids, i, k);
        }
    }

    /// The empty map.
    pub fn new() -> (m: Self)
        ensures
            m@ == Map::<ObjectId, V::V>::empty(),
            listable(m@.dom()),
    {
        let m = ObjectMap { entries: Vec::new() };
        proof {
            assert(m@ =~= Map::<ObjectId, V::V>::empty());
            m.lemma_entries();
        }
        m
    }

    /// The number of entries. The canonical listing of the keys has this
    /// length and holds exactly the keys.
    pub fn len(&self) -> (n: usize)
        ensures
            n == ordered_ids(self@.dom()).len(),
            lists(ordered_ids(self@.dom()), self@.dom()),
    {
        proof {
            use_type_invariant(self);
            self.lemma_entries();
        }
        self.entries.len()
    }

    /// Whether the map has no entry.
    pub fn is_empty(&self) -> (r: bool)
        ensures
            r == (self@.dom() =~= Set::<ObjectId>::empty()),
    {
        proof {
            use_type_invariant(self);
            self.lemma_entries();
            if self.entries.len() > 0 {
                assert(self@.contains_key(self.entries[0].0));
            }
        }
        self.entries.len() == 0
    }

    /// The `i`-th entry in canonical order.
    pub fn entry_at(&self, i: usize) -> (entry: (ObjectId, &V))
        requires
            i < ordered_ids(self@.dom()).len(),
        ensures
            entry.0 == ordered_ids(self@.dom())[i as int],
            self@.contains_key(entry.0),
            entry.1@ == self@[entry.0],
    {
        proof {
            use_type_invariant(self);
            self.lemma_entries();
        }
        let e = &self.entries[i];
        (e.0, &e.1)
    }

    /// Where `id` stands among the entries: its position if it is a key,
    /// else the position at which it would have to be put.
    fn position(&self, id: &ObjectId) -> (r: (bool, usize))
        ensures
            r.1 <= self.entries.len(),
            r.0 ==> r.1 < self.entries.len() && self.entries[r.1 as int].0 == *id,
            !r.0 ==> forall|i: int| 0 <= i < self.entries.len() ==> (#[trigger] self.entries[i]).0 != *id,
            forall|i: int| 0 <= i < r.1 ==> (#[trigger] self.entries[i]).0.spec_precedes(*id),
            forall|i: int|
                r.1 <= i < self.entries.len() && !(r.0 && i == r.1) ==> id.spec_precedes(
                    (#[trigger] self.entries[i]).0,
                ),
    {
        proof {
            use_type_invariant(self);
        }
        let ghost ids = self.ids();
        let mut lo: usize = 0;
        let mut hi: usize = self.entries.len();
        while lo < hi
            invariant
                lo <= hi <= self.entries.len(),
                ids == self.ids(),
                ascending(ids),
                forall|i: int| 0 <= i < lo ==> (#[trigger] self.entries[i]).0.spec_precedes(*id),
                forall|i: int|
                    hi <= i < self.entries.len() ==> id.spec_precedes((#[trigger] self.entries[i]).0),
            decreases hi - lo,
        {
            let mid = lo + (hi - lo) / 2;
            let key = &self.entries[mid].0;
            if *key == *id {
                proof {
                    assert forall|i: int| 0 <= i < mid implies (#[trigger] self.entries[i]).0.spec_precedes(
                        *id,
                    ) by {
                        assert(ids[i].spec_precedes(ids[mid as int]));
                    }
                    assert forall|i: int| mid < i < self.entries.len() implies id.spec_precedes(
                        (#[trigger] self.entries[i]).0,
                    ) by {
                        assert(ids[mid as int].spec_precedes(ids[i]));
                    }
                }
                return (true, mid);
            } else if key.precedes(id) {
                proof {
                    assert forall|i: int| 0 <= i < mid + 1 implies (#[trigger] self.entries[i]).0.spec_precedes(
                        *id,
                    ) by {
                        if i < mid {
                            assert(ids[i].spec_precedes(ids[mid as int]));
                            lemma_precedes_transitive(ids[i], ids[mid as int], *id);
                        }
                    }
                }
                lo = mid + 1;
            } else {
                proof {
                    lemma_precedes_total(*key, *id);
                    assert forall|i: int| mid <= i < self.entries.len() implies id.spec_precedes(
                        (#[trigger] self.entries[i]).0,
                    ) by {
                        if mid < i {
                            assert(ids[mid as int].spec_precedes(ids[i]));
                            lemma_precedes_transitive(*id, ids[mid as int], ids[i]);
                        }
                    }
                }
                hi = mid;
            }
        }
        proof {
            assert forall|i: int| 0 <= i < self.entries.len() implies (#[trigger] self.entries[i]).0
                != *id by {
                lemma_precedes_irreflexive(*id);
            }
        }
        (false, lo)
    }

    /// The value stored under `id`, if there is one.
    pub fn get(&self, id: &ObjectId) -> (r: Option<&V>)
        ensures
            match r {
                Some(v) => self@.contains_key(*id) && v@ == self@[*id],
                None => !self@.contains_key(*id),
            },
    {
        proof {
            use_type_invariant(self);
            self.lemma_entries();
        }
        let (found, at) = self.position(id);
        if found {
            Some(&self.entries[at].1)
        } else {
            None
        }
    }

    /// Whether `id` is a key of the map.
    pub fn contains_key(&self, id: &ObjectId) -> (r: bool)
        ensures
            r == self@.contains_key(*id),
    {
        self.get(id).is_some()
    }

    /// Stores `value` under `id`, in place of what was stored there before.
    pub fn insert(&mut self, id: ObjectId, value: V)
        ensures
            final(self)@ == old(self)@.insert(id, value@),
            listable(final(self)@.dom()),
    {
        proof {
            use_type_invariant(&*self);
            self.lemma_entries();
        }
        let ghost before = *self;
        let (found, at) = self.position(&id);
        let mut entries: Vec<(ObjectId, V)> = Vec::new();
        std::mem::swap(&mut entries, &mut self.entries);
        if found {
            entries.set(at, (id, value));
        } else {
            entries.insert(at, (id, value));
        }
        let ghost after = ObjectMap { entries };
        proof {
            let old_ids = before.ids();
            let new_ids = after.ids();
            assert(ascending(new_ids)) by {
                assert forall|i: int, j: int| 0 <= i < j < new_ids.len() implies new_ids[i].spec_precedes(
                    new_ids[j],
                ) by {
                    if found {
                        let a = if i == at { at as int } else { i };
                        let b = if j == at { at as int } else { j };
                        assert(old_ids[a].spec_precedes(old_ids[b]));
                    } else {
                        let a = if i < at { i } else { i - 1 };
                        let b = if j < at { j } else { j - 1 };
                        if i == at {
                            assert(id.spec_precedes(before.entries[b].0));
                        } else if j == at {
                            assert(before.entries[a].0.spec_precedes(id));
                        } else {
                            assert(old_ids[a].spec_precedes(old_ids[b]));
                        }
                    }
                }
            }
            after.lemma_entries();
            assert(after@ =~= before@.insert(id, value@)) by {
                assert forall|k: ObjectId| after@.contains_key(k) <==> before@.insert(
                    id,
                    value@,
                ).contains_key(k) by {
                    if after@.contains_key(k) {
                        let i = choose|i: int| 0 <= i < after.entries.len() && after.entries[i].0 == k;
                        if k != id {
                            if found {
                                assert(before.entries[i].0 == k);
                            } else if i < at {
                                assert(before.entries[i].0 == k);
                            } else {
                                assert(before.entries[i - 1].0 == k);
                            }
                        }
                    }
                    if before@.insert(id, value@).contains_key(k) {
                        if k == id {
                            assert(after.entries[at as int].0 == k);
                        } else {
                            let i = choose|i: int|
                                0 <= i < before.entries.len() && before.entries[i].0 == k;
                            if found {
                                assert(after.entries[i].0 == k);
                            } else if i < at {
                                assert(after.entries[i].0 == k);
                            } else {
                                assert(after.entries[i + 1].0 == k);
                            }
                        }
                    }
                }
                assert forall|k: ObjectId| after@.contains_key(k) implies after@[k] == before@.insert(
                    id,
                    value@,
                )[k] by {
                    let i = after.index_of(k);
                    assert(after@[after.entries[i].0] == after.entries[i].1@);
                    if k == id {
                        lemma_ascending_distinct(new_ids, i, at as int);
                    } else if found {
                        assert(before@[before.entries[i].0] == before.entries[i].1@);
                    } else if i < at {
                        assert(before@[before.entries[i].0] == before.entries[i].1@);
                    } else {
                        assert(before@[before.entries[i - 1].0] == before.entries[i - 1].1@);
                    }
                }
            }
        }
        self.entries = entries;
    }

    /// Stores every entry of `other`, in place of what was stored under
    /// the same identifiers before.
    pub fn extend(&mut self, other: ObjectMap<V>)
        ensures
            final(self)@ == old(self)@.union_prefer_right(other@),
            listable(final(self)@.dom()),
    {
        proof {
            use_type_invariant(&*self);
            self.lemma_entries();
        }
        let ghost start = self@;
        let ghost added = other@;
        let ghost ids = ordered_ids(added.dom());
        let entries = other.into_entries();
        let ghost all = entries@;
        assert(self@ =~= overlaid(start, added, ids.take(0)));
        for entry in iter: entries
            invariant
                iter.seq() == all,
                all.len() == ids.len(),
                lists(ids, added.dom()),
                forall|j: int|
                    0 <= j < all.len() ==> (#[trigger] all[j]).0 == ids[j] && all[j].1@ == added[all[j].0],
                self@ == overlaid(start, added, ids.take(iter.index() as int)),
                listable(self@.dom()),
        {
            let ghost k = iter.index() as int;
            let (id, value) = entry;
            self.insert(id, value);
            proof {
                let before = ids.take(k);
                let after = ids.take(k + 1);
                assert forall|x: ObjectId| after.contains(x) <==> before.contains(x) || x == id by {
                    if after.contains(x) {
                        let n = choose|n: int| 0 <= n < after.len() && after[n] == x;
                        if n < k {
                            assert(before[n] == x);
                        }
                    }
                    if before.contains(x) {
                        let n = choose|n: int| 0 <= n < before.len() && before[n] == x;
                        assert(after[n] == x);
                    }
                    if x == id {
                        assert(after[k] == x);
                    }
                }
                assert(self@ =~= overlaid(start, added, after));
            }
        }
        proof {
            assert(ids.take(ids.len() as int) =~= ids);
            assert(overlaid(start, added, ids) =~= start.union_prefer_right(added));
        }
    }

    /// Gives up the map for its entries, in canonical order.
    pub fn into_entries(self) -> (entries: Vec<(ObjectId, V)>)
        ensures
            entries.len() == ordered_ids(self@.dom()).len(),
            lists(ordered_ids(self@.dom()), self@.dom()),
            forall|i: int|
                0 <= i < entries.len() ==> (#[trigger] entries[i]).0 == ordered_ids(self@.dom())[i]
                    && entries[i].1@ == self@[entries[i].0],
    {
        proof {
            use_type_invariant(&self);
            self.lemma_entries();
        }
        self.entries
    }
}

impl<V: View + Copy> Clone for ObjectMap<V> {
    fn clone(&self) -> (copy: Self)
        ensures
            copy@ == self@,
    {
        proof {
            use_type_invariant(self);
        }
        let mut entries: Vec<(ObjectId, V)> = Vec::new();
        let mut i: usize = 0;
        while i < self.entries.len()
            invariant
                i <= self.entries.len(),
                entries.len() == i,
                forall|j: int| 0 <= j < i ==> entries[j] == self.entries[j],
            decreases self.entries.len() - i,
        {
            let e = &self.entries[i];
            entries.push((e.0, e.1));
            i += 1;
        }
        assert(entries@ =~= self.entries@);
        let copy = ObjectMap { entries };
        assert(copy@ =~= self@);
        copy
    }
}

} // verus!

//! A bounded set of identifiers, ordered from the least to the most recently used.
//! When the set is full, adding a new identifier drops the least recently used one.

use vstd::prelude::*;

verus! {

/// The order after `id` was used: `id` moves (or is added) to the most recent place,
/// and the least recent entry leaves when more than `capacity` entries would remain.
pub open spec fn lru_insert(order: Seq<crate::hash::Hash>, id: crate::hash::Hash, capacity: nat) -> Seq<
    crate::hash::Hash,
> {
    let kept = if order.contains(id) {
        order.remove(order.index_of(id))
    } else {
        order
    };
    let pushed = kept.push(id);
    if pushed.len() > capacity {
        pushed.drop_first()
    } else {
        pushed
    }
}

/// The order after the identifiers `ids` were used one after the other.
pub open spec fn lru_insert_all(
    order: Seq<crate::hash::Hash>,
    ids: Seq<crate::hash::Hash>,
    capacity: nat,
) -> Seq<crate::hash::Hash>
    decreases ids.len(),
{
    if ids.len() == 0 {
        order
    } else {
        lru_insert(lru_insert_all(order, ids.drop_last(), capacity), ids.last(), capacity)
    }
}

/// What every order satisfies: no identifier twice, no more entries than the capacity.
pub open spec fn lru_well_formed(order: Seq<crate::hash::Hash>, capacity: nat) -> bool {
    order.no_duplicates() && order.len() <= capacity
}

/// Whether `id` is among the `count` most recent entries of `order`.
pub open spec fn among_most_recent(order: Seq<crate::hash::Hash>, id: crate::hash::Hash, count: nat) -> bool {
    exists|k: int| 0 <= k < order.len() && order.len() - count <= k && order[k] == id
}

/// Using an identifier keeps the order well formed.
pub proof fn lemma_lru_insert_well_formed(
    order: Seq<crate::hash::Hash>,
    id: crate::hash::Hash,
    capacity: nat,
)
    requires
        lru_well_formed(order, capacity),
    ensures
        lru_well_formed(lru_insert(order, id, capacity), capacity),
        capacity > 0 ==> lru_insert(order, id, capacity).contains(id),
        capacity > 0 ==> among_most_recent(lru_insert(order, id, capacity), id, 1),
        forall|other: crate::hash::Hash|
            lru_insert(order, id, capacity).contains(other) ==> other == id || order.contains(
                other,
            ),
{
    let kept = if order.contains(id) {
        order.remove(order.index_of(id))
    } else {
        order
    };
    let pushed = kept.push(id);
    let after = lru_insert(order, id, capacity);
    if order.contains(id) {
        let at = order.index_of(id);
        assert(kept.len() == order.len() - 1);
        assert forall|i: int| 0 <= i < kept.len() implies kept[i] != id && order.contains(
            #[trigger] kept[i],
        ) by {
            if i < at {
                assert(kept[i] == order[i]);
            } else {
                assert(kept[i] == order[i + 1]);
            }
        }
        assert forall|i: int, j: int| 0 <= i < kept.len() && 0 <= j < kept.len() && i
            != j implies kept[i] != kept[j] by {
            let oi = if i < at {
                i
            } else {
                i + 1
            };
            let oj = if j < at {
                j
            } else {
                j + 1
            };
            assert(kept[i] == order[oi] && kept[j] == order[oj]);
        }
    } else {
        assert forall|i: int| 0 <= i < kept.len() implies kept[i] != id by {
            if kept[i] == id {
                assert(order.contains(id));
            }
        }
    }
    assert(pushed.no_duplicates());
    assert forall|i: int| 0 <= i < pushed.len() implies pushed[i] == id || order.contains(
        #[trigger] pushed[i],
    ) by {
        if i < kept.len() {
            assert(pushed[i] == kept[i]);
            if !order.contains(id) {
                assert(order[i] == kept[i]);
            }
        }
    }
    if pushed.len() > capacity {
        assert forall|i: int| 0 <= i < after.len() implies after[i] == #[trigger] pushed[i + 1] by {}
        assert(after.no_duplicates());
        if capacity > 0 {
            assert(after[after.len() - 1] == id);
        }
    } else {
        assert(after[after.len() - 1] == id);
    }
    assert forall|other: crate::hash::Hash| after.contains(other) implies other == id
        || order.contains(other) by {
        let k = after.index_of(other);
        if pushed.len() > capacity {
            assert(after[k] == pushed[k + 1]);
        } else {
            assert(after[k] == pushed[k]);
        }
    }
}

/// Using one more identifier moves an entry at most one place away from the most
/// recent end, and the entry stays as long as that place exists.
pub proof fn lemma_lru_insert_keeps_recent(
    order: Seq<crate::hash::Hash>,
    id: crate::hash::Hash,
    capacity: nat,
    other: crate::hash::Hash,
    count: nat,
)
    requires
        lru_well_formed(order, capacity),
        among_most_recent(order, other, count),
        count < capacity,
    ensures
        among_most_recent(lru_insert(order, id, capacity), other, count + 1),
{
    let after = lru_insert(order, id, capacity);
    lemma_lru_insert_well_formed(order, id, capacity);
    if other == id {
        let k = choose|k: int| 0 <= k < after.len() && after.len() - 1 <= k && after[k] == id;
        assert(0 <= k < after.len() && after.len() - (count + 1) <= k && after[k] == other);
    } else {
        let k = choose|k: int| 0 <= k < order.len() && order.len() - count <= k && order[k] == other;
        let kept = if order.contains(id) {
            order.remove(order.index_of(id))
        } else {
            order
        };
        let k2 = if order.contains(id) && order.index_of(id) < k {
            k - 1
        } else {
            k
        };
        assert(0 <= k2 < kept.len() && kept[k2] == other);
        assert(kept.len() - count <= k2 + 1);
        let pushed = kept.push(id);
        assert(pushed[k2] == other);
        assert(pushed.len() - (count + 1) <= k2);
        if pushed.len() > capacity {
            assert(k2 >= 1);
            assert(after[k2 - 1] == pushed[k2]);
            assert(0 <= k2 - 1 < after.len() && after.len() - (count + 1) <= k2 - 1 && after[k2
                - 1] == other);
        } else {
            assert(0 <= k2 < after.len() && after.len() - (count + 1) <= k2 && after[k2] == other);
        }
    }
}

/// Using a run of identifiers keeps the order well formed, and adds nothing but them.
pub proof fn lemma_lru_insert_all_well_formed(
    order: Seq<crate::hash::Hash>,
    ids: Seq<crate::hash::Hash>,
    capacity: nat,
)
    requires
        lru_well_formed(order, capacity),
    ensures
        lru_well_formed(lru_insert_all(order, ids, capacity), capacity),
        forall|other: crate::hash::Hash|
            lru_insert_all(order, ids, capacity).contains(other) ==> ids.contains(other)
                || order.contains(other),
    decreases ids.len(),
{
    if ids.len() > 0 {
        let before = lru_insert_all(order, ids.drop_last(), capacity);
        lemma_lru_insert_all_well_formed(order, ids.drop_last(), capacity);
        lemma_lru_insert_well_formed(before, ids.last(), capacity);
        assert forall|other: crate::hash::Hash|
            lru_insert_all(order, ids, capacity).contains(other) implies ids.contains(other)
            || order.contains(other) by {
            if other == ids.last() {
                assert(ids[ids.len() - 1] == other);
            } else if before.contains(other) && ids.drop_last().contains(other) {
                let k = ids.drop_last().index_of(other);
                assert(ids[k] == other);
            }
        }
    }
}

/// After a run of identifiers no longer than the capacity was used, each of them is
/// among the most recent entries: none of them pushed another one out.
pub proof fn lemma_lru_insert_all_recent(
    order: Seq<crate::hash::Hash>,
    ids: Seq<crate::hash::Hash>,
    capacity: nat,
    j: int,
)
    requires
        lru_well_formed(order, capacity),
        ids.len() <= capacity,
        0 <= j < ids.len(),
    ensures
        among_most_recent(lru_insert_all(order, ids, capacity), ids[j], (ids.len() - j) as nat),
    decreases ids.len(),
{
    let before = lru_insert_all(order, ids.drop_last(), capacity);
    lemma_lru_insert_all_well_formed(order, ids.drop_last(), capacity);
    if j == ids.len() - 1 {
        lemma_lru_insert_well_formed(before, ids.last(), capacity);
    } else {
        lemma_lru_insert_all_recent(order, ids.drop_last(), capacity, j);
        assert(ids.drop_last()[j] == ids[j]);
        lemma_lru_insert_keeps_recent(
            before,
            ids.last(),
            capacity,
            ids[j],
            (ids.len() - 1 - j) as nat,
        );
    }
}

/// After a run of identifiers no longer than the capacity was used, the set holds
/// every one of them.
pub proof fn lemma_lru_insert_all_contains(
    order: Seq<crate::hash::Hash>,
    ids: Seq<crate::hash::Hash>,
    capacity: nat,
)
    requires
        lru_well_formed(order, capacity),
        ids.len() <= capacity,
    ensures
        forall|j: int| 0 <= j < ids.len() ==> lru_insert_all(order, ids, capacity).contains(
            #[trigger] ids[j],
        ),
{
    assert forall|j: int| 0 <= j < ids.len() implies lru_insert_all(
        order,
        ids,
        capacity,
    ).contains(#[trigger] ids[j]) by {
        lemma_lru_insert_all_recent(order, ids, capacity, j);
    }
}

/// A bounded set of identifiers with least-recently-used eviction.
#[derive(Debug, Clone)]
pub struct KnownSet {
    items: Vec<crate::hash::Hash>,
    capacity: usize,
}

impl View for KnownSet {
    type V = Seq<crate::hash::Hash>;

    /// The entries, from the least to the most recently used.
    closed spec fn view(&self) -> Seq<crate::hash::Hash> {
        self.items@
    }
}

impl KnownSet {
    /// The largest number of entries.
    pub closed spec fn spec_capacity(&self) -> nat {
        self.capacity as nat
    }

    /// What every set satisfies.
    pub open spec fn well_formed(&self) -> bool {
        lru_well_formed(self@, self.spec_capacity())
    }

    /// Whether the set holds `id`.
    pub open spec fn spec_contains(&self, id: crate::hash::Hash) -> bool {
        self@.contains(id)
    }

    /// An empty set that holds at most `capacity` identifiers.
    pub fn new(capacity: usize) -> (set: KnownSet)
        ensures
            set@ == Seq::<crate::hash::Hash>::empty(),
            set.spec_capacity() == capacity,
            set.well_formed(),
    {
        KnownSet { items: Vec::new(), capacity }
    }

    /// Whether the set is well formed. A set that was made by `new` and changed by
    /// `insert` always is.
    pub fn is_well_formed(&self) -> (well_formed: bool)
        ensures
            well_formed == self.well_formed(),
    {
        if self.items.len() > self.capacity {
            return false;
        }
        let mut i: usize = 0;
        while i < self.items.len()
            invariant
                i <= self.items@.len(),
                forall|a: int, b: int|
                    0 <= a < i && a < b < self.items@.len() ==> self.items@[a] != self.items@[b],
            decreases self.items@.len() - i,
        {
            let mut j: usize = i + 1;
            while j < self.items.len()
                invariant
                    i < self.items@.len(),
                    i < j <= self.items@.len(),
                    forall|b: int| i < b < j ==> self.items@[i as int] != self.items@[b],
                decreases self.items@.len() - j,
            {
                if self.items[i].equals(&self.items[j]) {
                    assert(self.items@[i as int] == self.items@[j as int]);
                    return false;
                }
                j = j + 1;
            }
            i = i + 1;
        }
        assert forall|a: int, b: int|
            0 <= a < self.items@.len() && 0 <= b < self.items@.len() && a != b implies self.items@[a]
            != self.items@[b] by {
            if a < b {
                assert(self.items@[a] != self.items@[b]);
            } else {
                assert(self.items@[b] != self.items@[a]);
            }
        }
        true
    }

    /// The largest number of entries.
    pub fn capacity(&self) -> (capacity: usize)
        ensures
            capacity == self.spec_capacity(),
    {
        self.capacity
    }

    /// The number of entries.
    pub fn len(&self) -> (len: usize)
        ensures
            len == self@.len(),
    {
        self.items.len()
    }

    /// Where `id` stands in the order, if the set holds it.
    fn position(&self, id: &crate::hash::Hash) -> (at: Option<usize>)
        ensures
            match at {
                Some(k) => k < self@.len() && self@[k as int] == *id,
                None => !self@.contains(*id),
            },
    {
        let mut k: usize = 0;
        while k < self.items.len()
            invariant
                k <= self.items@.len(),
                forall|i: int| 0 <= i < k ==> self.items@[i] != *id,
            decreases self.items@.len() - k,
        {
            if self.items[k].equals(id) {
                return Some(k);
            }
            k = k + 1;
        }
        None
    }

    /// Whether the set holds `id`. The order is left as it is.
    pub fn contains(&self, id: &crate::hash::Hash) -> (held: bool)
        ensures
            held == self.spec_contains(*id),
    {
        self.position(id).is_some()
    }

    /// Uses `id`: it becomes the most recent entry, and the least recent entry leaves
    /// if the set would otherwise exceed its capacity.
    pub fn insert(&mut self, id: crate::hash::Hash)
        requires
            old(self).well_formed(),
        ensures
            final(self)@ == lru_insert(old(self)@, id, old(self).spec_capacity()),
            final(self).spec_capacity() == old(self).spec_capacity(),
            final(self).well_formed(),
    {
        proof {
            lemma_lru_insert_well_formed(self@, id, self.spec_capacity());
        }
        match self.position(&id) {
            Some(k) => {
                proof {
                    let chosen = self@.index_of(id);
                    assert(self@[chosen] == id);
                    assert(chosen == k);
                }
                self.items.remove(k);
            },
            None => {},
        }
        self.items.push(id);
        if self.items.len() > self.capacity {
            self.items.remove(0);
            assert(self.items@ =~= lru_insert(old(self)@, id, old(self).spec_capacity()));
        }
    }

    /// Uses the identifiers `ids` one after the other.
    pub fn insert_all(&mut self, ids: &Vec<crate::hash::Hash>)
        requires
            old(self).well_formed(),
        ensures
            final(self)@ == lru_insert_all(old(self)@, ids@, old(self).spec_capacity()),
            final(self).spec_capacity() == old(self).spec_capacity(),
            final(self).well_formed(),
    {
        let mut k: usize = 0;
        while k < ids.len()
            invariant
                k <= ids@.len(),
                self.well_formed(),
                self.spec_capacity() == old(self).spec_capacity(),
                self@ == lru_insert_all(old(self)@, ids@.take(k as int), old(self).spec_capacity()),
            decreases ids@.len() - k,
        {
            proof {
                assert(ids@.take(k + 1).drop_last() =~= ids@.take(k as int));
                assert(ids@.take(k + 1).last() == ids@[k as int]);
            }
            self.insert(ids[k]);
            k = k + 1;
        }
        assert(ids@.take(k as int) =~= ids@);
    }
}

} // verus!

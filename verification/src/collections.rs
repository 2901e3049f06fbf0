//! A bounded cache that evicts the least recently used entry.
//!
//! Entries live in numbered slots. A hash map finds the slot of a key, and a
//! doubly linked list of slots keeps the recency order, so every operation
//! but `clear` takes amortized constant time.

use crate::recency_list::RecencyList;
use std::collections::HashMap;
use std::hash::Hash;
use vstd::pervasive::cloned;
use vstd::prelude::*;
use vstd::std_specs::hash::obeys_key_model;

verus! {

/// The predicate that holds of every key but `key`.
pub open spec fn other_than<K>(key: K) -> spec_fn(K) -> bool {
    |k: K| k != key
}

/// The keys of `s` other than `key`, in their order in `s`.
pub open spec fn without<K>(s: Seq<K>, key: K) -> Seq<K> {
    s.filter(other_than(key))
}

/// Taking out a key that does not occur changes nothing.
pub proof fn lemma_without_absent<K>(s: Seq<K>, key: K)
    requires
        !s.contains(key),
    ensures
        without(s, key) == s,
    decreases s.len(),
{
    reveal(Seq::filter);
    if s.len() > 0 {
        let init = s.drop_last();
        assert(s =~= init.push(s.last()));
        assert(!init.contains(key)) by {
            if init.contains(key) {
                let i = choose|i: int| 0 <= i < init.len() && init[i] == key;
                assert(s[i] == key);
            }
        }
        lemma_without_absent(init, key);
        assert(s[s.len() - 1] != key);
    }
}

/// Where no key occurs twice, taking out the key at a position takes out
/// that position and nothing else.
pub proof fn lemma_without_at<K>(s: Seq<K>, i: int)
    requires
        s.no_duplicates(),
        0 <= i < s.len(),
    ensures
        without(s, s[i]) == s.remove(i),
{
    let key = s[i];
    let front = s.take(i);
    let back = s.skip(i + 1);
    assert(s =~= front + (seq![key] + back));
    assert(s.remove(i) =~= front + back);
    assert(!front.contains(key)) by {
        if front.contains(key) {
            let j = choose|j: int| 0 <= j < front.len() && front[j] == key;
            assert(s[j] == key);
        }
    }
    assert(!back.contains(key)) by {
        if back.contains(key) {
            let j = choose|j: int| 0 <= j < back.len() && back[j] == key;
            assert(s[j + i + 1] == key);
        }
    }
    lemma_without_absent(front, key);
    lemma_without_absent(back, key);
    Seq::filter_distributes_over_add(front, seq![key] + back, other_than(key));
    back.lemma_filter_prepend(key, other_than(key));
    assert(Seq::<K>::empty() + back =~= back);
}

/// What is left after taking out a key: no key twice, the same keys but
/// that one, and one key fewer if it occurred.
pub proof fn lemma_without_keys<K>(s: Seq<K>, key: K)
    requires
        s.no_duplicates(),
    ensures
        without(s, key).no_duplicates(),
        without(s, key).to_set() =~= s.to_set().remove(key),
        without(s, key).len() == if s.contains(key) { s.len() - 1 } else { s.len() as int },
{
    if s.contains(key) {
        let i = choose|i: int| 0 <= i < s.len() && s[i] == key;
        lemma_without_at(s, i);
        let r = s.remove(i);
        assert forall|k: K| r.to_set().contains(k) <==> s.to_set().remove(key).contains(k) by {
            if r.contains(k) {
                let j = choose|j: int| 0 <= j < r.len() && r[j] == k;
                if j < i {
                    assert(s[j] == k);
                } else {
                    assert(s[j + 1] == k);
                }
            }
            if s.contains(k) && k != key {
                let j = choose|j: int| 0 <= j < s.len() && s[j] == k;
                if j < i {
                    assert(r[j] == k);
                } else {
                    assert(r[j - 1] == k);
                }
            }
        }
    } else {
        lemma_without_absent(s, key);
    }
}

/// A key put in front of the others: no key stands twice, the keys are
/// those of before and the key, and one key more is held if it was not.
pub proof fn lemma_touched_keys<K>(s: Seq<K>, key: K)
    requires
        s.no_duplicates(),
    ensures
        (seq![key] + without(s, key)).no_duplicates(),
        (seq![key] + without(s, key)).to_set() =~= s.to_set().insert(key),
        (seq![key] + without(s, key)).len() == if s.contains(key) {
            s.len()
        } else {
            s.len() + 1
        },
{
    lemma_without_keys(s, key);
    let rest = without(s, key);
    let moved = seq![key] + rest;
    assert(!rest.contains(key)) by {
        assert(!rest.to_set().contains(key));
    }
    assert forall|i: int, j: int| 0 <= i < moved.len() && 0 <= j < moved.len() && i != j implies moved[i]
        != moved[j] by {
        if i > 0 && j > 0 {
            assert(rest[i - 1] != rest[j - 1]);
        } else if i > 0 {
            assert(rest.contains(rest[i - 1]));
        } else {
            assert(rest.contains(rest[j - 1]));
        }
    }
    assert forall|k: K| moved.to_set().contains(k) <==> s.to_set().insert(key).contains(k) by {
        if moved.contains(k) {
            let j = choose|j: int| 0 <= j < moved.len() && moved[j] == k;
            if j > 0 {
                assert(rest.contains(rest[j - 1]));
                assert(rest.to_set().contains(k));
            }
        }
        if k == key {
            assert(moved[0] == k);
        } else if s.contains(k) {
            assert(rest.to_set().contains(k));
            let j = choose|j: int| 0 <= j < rest.len() && rest[j] == k;
            assert(moved[j + 1] == k);
        }
    }
}

/// The mathematical state of a cache: its fixed capacity, its keys from the
/// most recently used to the least recently used, and the value of each key.
#[verifier::reject_recursive_types(K)]
pub struct CacheModel<K, V> {
    pub capacity: nat,
    pub recency: Seq<K>,
    pub entries: Map<K, V>,
}

impl<K, V> CacheModel<K, V> {
    /// The cache that holds nothing.
    pub open spec fn empty(capacity: nat) -> Self {
        CacheModel { capacity, recency: Seq::empty(), entries: Map::empty() }
    }

    /// Every key of `entries` stands exactly once in `recency`, and no more
    /// keys are held than the capacity allows.
    pub open spec fn wf(self) -> bool {
        &&& self.recency.no_duplicates()
        &&& self.entries.dom() =~= self.recency.to_set()
        &&& self.recency.len() <= self.capacity
    }

    /// The number of live entries.
    pub open spec fn len(self) -> nat {
        self.recency.len()
    }

    /// The value stored under `key`, if any.
    pub open spec fn lookup(self, key: K) -> Option<V> {
        if self.entries.contains_key(key) {
            Some(self.entries[key])
        } else {
            None
        }
    }

    /// The key that leaves next, if the cache holds anything.
    pub open spec fn eviction_candidate(self) -> Option<K> {
        if self.recency.len() > 0 {
            Some(self.recency.last())
        } else {
            None
        }
    }

    /// Drops the least recently used keys, and their values, until no more
    /// than `capacity` are left.
    pub open spec fn evict(self) -> Self {
        if self.recency.len() <= self.capacity {
            self
        } else {
            let kept = self.recency.take(self.capacity as int);
            CacheModel {
                capacity: self.capacity,
                recency: kept,
                entries: self.entries.restrict(kept.to_set()),
            }
        }
    }

    /// Moves `key` to the most recently used position if it is held.
    pub open spec fn promote(self, key: K) -> Self {
        if self.entries.contains_key(key) {
            CacheModel {
                capacity: self.capacity,
                recency: seq![key] + without(self.recency, key),
                entries: self.entries,
            }
        } else {
            self
        }
    }

    /// Stores `value` under `key` at the most recently used position, then
    /// evicts down to the capacity.
    pub open spec fn insert(self, key: K, value: V) -> Self {
        CacheModel {
            capacity: self.capacity,
            recency: seq![key] + without(self.recency, key),
            entries: self.entries.insert(key, value),
        }.evict()
    }

    /// Forgets `key`; the other keys keep their order.
    pub open spec fn remove(self, key: K) -> Self {
        CacheModel {
            capacity: self.capacity,
            recency: without(self.recency, key),
            entries: self.entries.remove(key),
        }
    }

    /// Forgets every entry and keeps the capacity.
    pub open spec fn clear(self) -> Self {
        Self::empty(self.capacity)
    }
}

/// What the cache needs of its key type: it hashes and compares as a key of
/// a hash map must, and a clone equals the key it was made from.
pub open spec fn lawful_key<K: Clone + Hash + Eq>() -> bool {
    &&& obeys_key_model::<K>()
    &&& forall|a: K, b: K| #[trigger] cloned(a, b) ==> a == b
}

/// A cache with a maximum capacity that evicts the least recently used
/// entry when the capacity is exceeded.
#[derive(Debug)]
pub struct LruCache<K, V> {
    capacity: usize,
    /// The slot of each key that is held.
    index: HashMap<K, usize>,
    /// For each slot, the entry that it holds; `None` for a free slot.
    slots: Vec<Option<(K, V)>>,
    /// The slots that hold an entry, in recency order.
    recency: RecencyList,
    /// The slots that hold nothing.
    free: Vec<usize>,
}

impl<K: Clone + Hash + Eq, V> View for LruCache<K, V> {
    type V = CacheModel<K, V>;

    closed spec fn view(&self) -> CacheModel<K, V> {
        CacheModel {
            capacity: self.capacity as nat,
            recency: self.recency.order().map_values(|slot: usize| self.key_at(slot)),
            entries: Map::new(
                |key: K| self.index@.contains_key(key),
                |key: K| self.value_at(self.index@[key]),
            ),
        }
    }
}

impl<K: Clone + Hash + Eq, V> LruCache<K, V> {
    /// The key type is lawful, the slots are in step with each other, and
    /// the state is well formed.
    pub open spec fn wf(&self) -> bool {
        &&& lawful_key::<K>()
        &&& self.inv()
        &&& self@.wf()
    }

    /// The key in a slot that holds an entry.
    spec fn key_at(&self, slot: usize) -> K {
        self.slots@[slot as int].unwrap().0
    }

    /// The value in a slot that holds an entry.
    spec fn value_at(&self, slot: usize) -> V {
        self.slots@[slot as int].unwrap().1
    }

    /// The slots are in step: every linked slot holds an entry and is found
    /// by the key of that entry, the index finds linked slots only, and the
    /// free slots are not linked.
    pub closed spec fn inv(&self) -> bool {
        let order = self.recency.order();
        &&& lawful_key::<K>()
        &&& self.recency.wf()
        &&& self.slots@.len() == self.recency.slots()
        &&& forall|p: int|
            0 <= p < order.len() ==> {
                let slot = #[trigger] order[p];
                &&& self.slots@[slot as int] is Some
                &&& self.index@.contains_key(self.key_at(slot))
                &&& self.index@[self.key_at(slot)] == slot
            }
        &&& forall|key: K| #[trigger]
            self.index@.contains_key(key) ==> order.contains(self.index@[key]) && self.key_at(
                self.index@[key],
            ) == key
        &&& self.free@.no_duplicates()
        &&& forall|i: int|
            0 <= i < self.free@.len() ==> (#[trigger] self.free@[i]) < self.recency.slots()
                && !order.contains(self.free@[i])
    }

    /// A linked slot is a slot, holds an entry, and is found by its key.
    proof fn lemma_linked_slot(&self, slot: usize)
        requires
            self.inv(),
            self.recency.order().contains(slot),
        ensures
            slot < self.slots@.len(),
            self.slots@[slot as int] is Some,
            self.index@.contains_key(self.key_at(slot)),
            self.index@[self.key_at(slot)] == slot,
    {
        self.recency.lemma_order();
        let order = self.recency.order();
        let p = choose|p: int| 0 <= p < order.len() && order[p] == slot;
        assert(order[p] == slot);
    }

    /// A key that the index knows is the key of a linked slot.
    proof fn lemma_indexed_key(&self, key: K)
        requires
            self.inv(),
            self.index@.contains_key(key),
        ensures
            self.recency.order().contains(self.index@[key]),
            self.index@[key] < self.slots@.len(),
            self.slots@[self.index@[key] as int] is Some,
            self.key_at(self.index@[key]) == key,
    {
        self.lemma_linked_slot(self.index@[key]);
    }

    /// Slots in step hold each key once, and the keys that the index knows.
    proof fn lemma_view(&self)
        requires
            self.inv(),
        ensures
            self@.recency.no_duplicates(),
            self@.entries.dom() =~= self@.recency.to_set(),
            self@.recency.len() == self.recency.order().len(),
            self@.wf() <==> self.recency.order().len() <= self.capacity,
    {
        let order = self.recency.order();
        let recency = self@.recency;
        self.recency.lemma_order();
        assert forall|p: int, q: int| 0 <= p < recency.len() && 0 <= q < recency.len() && p != q implies
            recency[p] != recency[q] by {
            if recency[p] == recency[q] {
                assert(self.index@[self.key_at(order[p])] == order[p]);
                assert(self.index@[self.key_at(order[q])] == order[q]);
            }
        }
        assert forall|key: K| self@.entries.dom().contains(key) <==> recency.to_set().contains(key) by {
            if self.index@.contains_key(key) {
                let slot = self.index@[key];
                let p = choose|p: int| 0 <= p < order.len() && order[p] == slot;
                assert(recency[p] == key);
            }
            if recency.contains(key) {
                let p = choose|p: int| 0 <= p < recency.len() && recency[p] == key;
                assert(self.index@.contains_key(self.key_at(order[p])));
            }
        }
    }

    /// Create a new cache with the given capacity.
    pub fn new(capacity: usize) -> (cache: Self)
        requires
            lawful_key::<K>(),
        ensures
            cache.wf(),
            cache@ == CacheModel::<K, V>::empty(capacity as nat),
    {
        let cache = Self {
            capacity,
            index: HashMap::new(),
            slots: Vec::new(),
            recency: RecencyList::new(),
            free: Vec::new(),
        };
        proof {
            cache.lemma_view();
            assert(cache@.recency =~= Seq::<K>::empty());
            assert(cache@.entries =~= Map::<K, V>::empty());
        }
        cache
    }

    /// Get the current number of entries.
    pub fn len(&self) -> (n: usize)
        requires
            self.wf(),
        ensures
            n == self@.len(),
            n <= self@.capacity,
    {
        proof {
            self@.recency.unique_seq_to_set();
            assert(self.index@.dom() =~= self@.entries.dom());
        }
        self.index.len()
    }

    /// Check if the cache holds nothing.
    pub fn is_empty(&self) -> (empty: bool)
        requires
            self.wf(),
        ensures
            empty == (self@.len() == 0),
    {
        proof {
            self@.recency.unique_seq_to_set();
            assert(self.index@.dom() =~= self@.entries.dom());
        }
        self.index.is_empty()
    }

    /// Remove every entry; the capacity stays.
    pub fn clear(&mut self)
        requires
            old(self).wf(),
        ensures
            final(self).wf(),
            final(self)@ == old(self)@.clear(),
    {
        self.index.clear();
        self.slots.clear();
        self.recency.clear();
        self.free.clear();
        proof {
            self.lemma_view();
            assert(self@.recency =~= Seq::<K>::empty());
            assert(self@.entries =~= Map::<K, V>::empty());
        }
    }

    /// The value in a slot that holds an entry.
    fn value_in(&self, slot: usize) -> (value: Option<&V>)
        requires
            slot < self.slots@.len(),
            self.slots@[slot as int] is Some,
        ensures
            value == Some(&self.value_at(slot)),
    {
        match &self.slots[slot] {
            Some(entry) => Some(&entry.1),
            None => None,
        }
    }

    /// Get a value without touching the recency order.
    pub fn peek(&self, key: &K) -> (value: Option<&V>)
        requires
            self.wf(),
        ensures
            match value {
                Some(v) => self@.lookup(*key) == Some(*v),
                None => self@.lookup(*key) is None,
            },
    {
        match self.index.get(key) {
            Some(slot) => {
                proof {
                    self.lemma_indexed_key(*key);
                }
                self.value_in(*slot)
            },
            None => None,
        }
    }

    /// Makes the entry of a linked slot the most recently used.
    fn move_to_front(&mut self, slot: usize)
        requires
            old(self).inv(),
            old(self).recency.order().contains(slot),
        ensures
            final(self).inv(),
            final(self).recency.order().len() == old(self).recency.order().len(),
            final(self).recency.order()[0] == slot,
            final(self)@ == old(self)@.promote(old(self).key_at(slot)),
            final(self).slots@ == old(self).slots@,
            final(self).index@ == old(self).index@,
    {
        let ghost order = self.recency.order();
        let ghost at = choose|p: int| 0 <= p < order.len() && order[p] == slot;
        let ghost key = self.key_at(slot);
        proof {
            self.lemma_view();
            self.recency.lemma_order();
            self.lemma_linked_slot(slot);
            lemma_touched_keys(order, slot);
            lemma_without_at(order, at);
            lemma_without_at(self@.recency, at);
            assert(order.to_set().insert(slot) =~= order.to_set());
        }
        self.recency.unlink(slot);
        proof {
            assert(!self.recency.order().contains(slot)) by {
                lemma_without_keys(order, slot);
                assert(!without(order, slot).to_set().contains(slot));
            }
        }
        self.recency.push_front(slot);
        proof {
            let moved = self.recency.order();
            assert forall|p: int| 0 <= p < moved.len() implies order.contains(#[trigger] moved[p]) by {
                assert(moved.to_set().contains(moved[p]));
            }
            assert forall|s: usize| order.contains(s) implies moved.contains(s) by {
                assert(order.to_set().contains(s));
                assert(moved.to_set().contains(s));
            }
            assert forall|p: int| 0 <= p < moved.len() implies {
                let held = #[trigger] moved[p];
                &&& self.slots@[held as int] is Some
                &&& self.index@.contains_key(self.key_at(held))
                &&& self.index@[self.key_at(held)] == held
            } by {
                old(self).lemma_linked_slot(moved[p]);
            }
            assert(self@.recency =~= seq![key] + old(self)@.recency.remove(at));
            assert(self@.entries =~= old(self)@.entries);
            assert(old(self)@.entries.contains_key(key));
        }
    }

    /// Get a value from the cache, making its key the most recently used.
    pub fn get(&mut self, key: &K) -> (value: Option<&V>)
        requires
            old(self).wf(),
        ensures
            final(self).wf(),
            final(self)@ == old(self)@.promote(*key),
            match value {
                Some(v) => old(self)@.lookup(*key) == Some(*v),
                None => old(self)@.lookup(*key) is None,
            },
    {
        let slot = match self.index.get(key) {
            Some(slot) => *slot,
            None => {
                return None;
            },
        };
        proof {
            self.lemma_indexed_key(*key);
        }
        self.move_to_front(slot);
        proof {
            self.lemma_view();
        }
        self.value_in(slot)
    }

    /// Takes the entry of a linked slot out of the cache and frees the slot.
    fn drop_slot(&mut self, slot: usize) -> (removed: Option<V>)
        requires
            old(self).inv(),
            old(self).recency.order().contains(slot),
        ensures
            final(self).inv(),
            final(self).capacity == old(self).capacity,
            final(self)@ == old(self)@.remove(old(self).key_at(slot)),
            removed == Some(old(self).value_at(slot)),
    {
        let ghost order = self.recency.order();
        let ghost at = choose|p: int| 0 <= p < order.len() && order[p] == slot;
        let ghost key = self.key_at(slot);
        proof {
            self.lemma_view();
            self.recency.lemma_order();
            self.lemma_linked_slot(slot);
            lemma_without_at(order, at);
            lemma_without_at(self@.recency, at);
            lemma_without_keys(order, slot);
        }
        let removed = match self.slots[slot].take() {
            Some(entry) => {
                self.index.remove(&entry.0);
                Some(entry.1)
            },
            None => None,
        };
        assert(self.index@ == old(self).index@.remove(key));
        self.recency.unlink(slot);
        self.free.push(slot);
        proof {
            let left = self.recency.order();
            assert forall|p: int| 0 <= p < left.len() implies order.contains(#[trigger] left[p])
                && left[p] != slot by {
                assert(left.to_set().contains(left[p]));
            }
            assert forall|p: int| 0 <= p < left.len() implies {
                let held = #[trigger] left[p];
                &&& self.slots@[held as int] is Some
                &&& self.index@.contains_key(self.key_at(held))
                &&& self.index@[self.key_at(held)] == held
            } by {
                old(self).lemma_linked_slot(left[p]);
            }
            assert forall|other: K| #[trigger] self.index@.contains_key(other) implies left.contains(
                self.index@[other],
            ) && self.key_at(self.index@[other]) == other by {
                old(self).lemma_indexed_key(other);
                assert(order.to_set().remove(slot).contains(self.index@[other]));
                assert(left.to_set().contains(self.index@[other]));
            }
            assert(!old(self).free@.contains(slot)) by {
                if old(self).free@.contains(slot) {
                    let i = choose|i: int| 0 <= i < old(self).free@.len() && old(self).free@[i] == slot;
                    assert(!order.contains(old(self).free@[i]));
                }
            }
            assert forall|i: int| 0 <= i < self.free@.len() implies (#[trigger] self.free@[i])
                < self.recency.slots() && !left.contains(self.free@[i]) by {
                if left.contains(self.free@[i]) {
                    assert(left.to_set().contains(self.free@[i]));
                }
                if i < old(self).free@.len() {
                    assert(self.free@[i] == old(self).free@[i]);
                }
            }
            assert(self.free@.no_duplicates()) by {
                assert forall|i: int, j: int|
                    0 <= i < self.free@.len() && 0 <= j < self.free@.len() && i != j implies self.free@[i]
                    != self.free@[j] by {
                    if i < old(self).free@.len() {
                        assert(old(self).free@.contains(old(self).free@[i]));
                    }
                    if j < old(self).free@.len() {
                        assert(old(self).free@.contains(old(self).free@[j]));
                    }
                }
            }
            assert forall|p: int| 0 <= p < left.len() implies self.key_at(left[p]) == old(self).key_at(
                left[p],
            ) by {}
            assert(self@.recency =~= old(self)@.recency.remove(at));
            assert forall|other: K| #[trigger] self@.entries.contains_key(other) implies self@.entries[other]
                == old(self)@.entries.remove(key)[other] by {
                old(self).lemma_indexed_key(other);
            }
            assert(self@.entries =~= old(self)@.entries.remove(key));
        }
        removed
    }

    /// Remove a key from the cache.
    pub fn remove(&mut self, key: &K) -> (removed: Option<V>)
        requires
            old(self).wf(),
        ensures
            final(self).wf(),
            final(self)@ == old(self)@.remove(*key),
            removed == old(self)@.lookup(*key),
    {
        let slot = match self.index.get(key) {
            Some(slot) => *slot,
            None => {
                proof {
                    assert(!self@.recency.to_set().contains(*key));
                    lemma_without_absent(self@.recency, *key);
                    assert(self@.entries.remove(*key) =~= self@.entries);
                }
                return None;
            },
        };
        proof {
            self.lemma_indexed_key(*key);
        }
        let removed = self.drop_slot(slot);
        proof {
            self.lemma_view();
            old(self).lemma_view();
            lemma_without_keys(old(self)@.recency, *key);
        }
        removed
    }

    /// Evicts least recently used entries until the capacity is respected.
    fn evict_if_needed(&mut self)
        requires
            old(self).inv(),
        ensures
            final(self).wf(),
            final(self)@ == old(self)@.evict(),
    {
        proof {
            self.lemma_view();
            assert(self@.recency.take(self@.recency.len() as int) =~= self@.recency);
            assert(self@.entries.restrict(self@.recency.to_set()) =~= self@.entries);
        }
        while self.index.len() > self.capacity
            invariant
                self.inv(),
                self.capacity == old(self).capacity,
                self@.recency.len() <= old(self)@.recency.len(),
                self@.recency.len() >= self.capacity || self@.recency.len() == old(self)@.recency.len(),
                self@.recency == old(self)@.recency.take(self@.recency.len() as int),
                self@.entries == old(self)@.entries.restrict(self@.recency.to_set()),
            decreases self@.recency.len(),
        {
            let ghost before = self@;
            proof {
                self.lemma_view();
                before.recency.unique_seq_to_set();
                assert(self.index@.dom() =~= before.entries.dom());
            }
            match self.recency.last() {
                Some(slot) => {
                    proof {
                        assert(self.recency.order()[self.recency.order().len() - 1] == slot);
                        lemma_without_at(before.recency, before.recency.len() - 1);
                        lemma_without_keys(before.recency, before.recency.last());
                    }
                    self.drop_slot(slot);
                    proof {
                        assert(self@.recency =~= before.recency.drop_last());
                        assert(self@.recency =~= old(self)@.recency.take(self@.recency.len() as int));
                        assert(self@.entries =~= old(self)@.entries.restrict(self@.recency.to_set()));
                    }
                },
                None => {
                    assert(false);
                },
            }
        }
        proof {
            self.lemma_view();
            self@.recency.unique_seq_to_set();
            assert(self.index@.dom() =~= self@.entries.dom());
        }
    }

    /// Finds a slot for a new entry and puts the entry in it: a free slot,
    /// or a new one where none is free. The slot is not linked yet.
    fn claim_slot(&mut self, key: K, value: V) -> (slot: usize)
        requires
            old(self).inv(),
        ensures
            final(self).recency.wf(),
            final(self).recency.order() == old(self).recency.order(),
            final(self).slots@.len() == final(self).recency.slots(),
            final(self).index@ == old(self).index@,
            final(self).capacity == old(self).capacity,
            slot < final(self).recency.slots(),
            !old(self).recency.order().contains(slot),
            final(self).slots@[slot as int] == Some((key, value)),
            forall|s: int|
                0 <= s < old(self).slots@.len() && s != slot ==> final(self).slots@[s] == old(self).slots@[s],
            final(self).free@.no_duplicates(),
            forall|i: int|
                0 <= i < final(self).free@.len() ==> (#[trigger] final(self).free@[i]) < final(self).recency.slots() && !old(self).recency.order().contains(final(self).free@[i])
                    && final(self).free@[i] != slot,
    {
        proof {
            self.recency.lemma_order();
        }
        match self.free.pop() {
            Some(slot) => {
                assert(slot == old(self).free@[old(self).free@.len() - 1]);
                self.slots[slot] = Some((key, value));
                proof {
                    assert forall|i: int| 0 <= i < self.free@.len() implies (#[trigger] self.free@[i])
                        != slot by {
                        assert(self.free@[i] == old(self).free@[i]);
                    }
                }
                slot
            },
            None => {
                let slot = self.recency.slot_count();
                self.slots.push(Some((key, value)));
                self.recency.add_slot();
                proof {
                    if old(self).recency.order().contains(slot) {
                        let p = choose|p: int|
                            0 <= p < old(self).recency.order().len() && old(self).recency.order()[p]
                                == slot;
                        assert(old(self).recency.order()[p] < old(self).recency.slots());
                    }
                }
                slot
            },
        }
    }

    /// Puts a new value in a linked slot; returns the value it held.
    fn replace_value(&mut self, slot: usize, value: V) -> (previous: Option<V>)
        requires
            old(self).inv(),
            old(self).recency.order().contains(slot),
        ensures
            final(self).inv(),
            final(self).capacity == old(self).capacity,
            final(self).recency.order() == old(self).recency.order(),
            final(self).key_at(slot) == old(self).key_at(slot),
            final(self)@.recency == old(self)@.recency,
            final(self)@.entries == old(self)@.entries.insert(old(self).key_at(slot), value),
            previous == Some(old(self).value_at(slot)),
    {
        proof {
            self.lemma_linked_slot(slot);
        }
        let previous = match self.slots[slot].take() {
            Some(entry) => {
                self.slots[slot] = Some((entry.0, value));
                Some(entry.1)
            },
            None => None,
        };
        proof {
            let order = self.recency.order();
            let key = old(self).key_at(slot);
            assert forall|p: int| 0 <= p < order.len() implies {
                let linked = #[trigger] order[p];
                &&& self.slots@[linked as int] is Some
                &&& self.index@.contains_key(self.key_at(linked))
                &&& self.index@[self.key_at(linked)] == linked
            } by {
                assert(order.contains(order[p]));
                old(self).lemma_linked_slot(order[p]);
            }
            assert forall|other: K| #[trigger] self.index@.contains_key(other) implies order.contains(
                self.index@[other],
            ) && self.key_at(self.index@[other]) == other by {
                old(self).lemma_indexed_key(other);
            }
            assert(self@.recency =~= old(self)@.recency);
            assert forall|other: K| #[trigger] self@.entries.contains_key(other) implies self@.entries[other]
                == old(self)@.entries.insert(key, value)[other] by {
                old(self).lemma_indexed_key(other);
            }
            assert(self@.entries =~= old(self)@.entries.insert(key, value));
        }
        previous
    }

    /// Insert a key-value pair; returns the value the key had before.
    pub fn insert(&mut self, key: K, value: V) -> (previous: Option<V>)
        requires
            old(self).wf(),
        ensures
            final(self).wf(),
            final(self)@ == old(self)@.insert(key, value),
            previous == old(self)@.lookup(key),
    {
        proof {
            self.lemma_view();
            lemma_touched_keys(self@.recency, key);
        }
        let held = match self.index.get(&key) {
            Some(slot) => Some(*slot),
            None => None,
        };
        match held {
            Some(slot) => {
                proof {
                    self.lemma_indexed_key(key);
                }
                let previous = self.replace_value(slot, value);
                self.move_to_front(slot);
                proof {
                    self.lemma_view();
                }
                previous
            },
            None => {
                let stored = key.clone();
                assert(cloned(key, stored));
                let ghost order = self.recency.order();
                let slot = self.claim_slot(stored, value);
                self.index.insert(key, slot);
                self.recency.push_front(slot);
                proof {
                    let grown = self.recency.order();
                    assert forall|p: int| 0 <= p < grown.len() implies {
                        let linked = #[trigger] grown[p];
                        &&& self.slots@[linked as int] is Some
                        &&& self.index@.contains_key(self.key_at(linked))
                        &&& self.index@[self.key_at(linked)] == linked
                    } by {
                        if p > 0 {
                            assert(grown[p] == order[p - 1]);
                            assert(order.contains(order[p - 1]));
                            old(self).lemma_linked_slot(order[p - 1]);
                        }
                    }
                    assert forall|other: K| #[trigger] self.index@.contains_key(other) implies grown.contains(
                        self.index@[other],
                    ) && self.key_at(self.index@[other]) == other by {
                        if other == key {
                            assert(grown[0] == slot);
                        } else {
                            old(self).lemma_indexed_key(other);
                            let found = old(self).index@[other];
                            let q = choose|q: int| 0 <= q < order.len() && order[q] == found;
                            assert(grown[q + 1] == found);
                        }
                    }
                    assert forall|i: int| 0 <= i < self.free@.len() implies !grown.contains(
                        #[trigger] self.free@[i],
                    ) by {
                        if grown.contains(self.free@[i]) {
                            let q = choose|q: int| 0 <= q < grown.len() && grown[q] == self.free@[i];
                            if q > 0 {
                                assert(order.contains(order[q - 1]));
                            }
                        }
                    }
                    assert(self.inv());
                    lemma_without_absent(old(self)@.recency, key);
                    assert forall|p: int| 0 < p < grown.len() implies self.key_at(grown[p]) == old(self).key_at(order[p - 1]) by {
                        assert(order.contains(order[p - 1]));
                        old(self).lemma_linked_slot(order[p - 1]);
                    }
                    assert(self@.recency =~= seq![key] + old(self)@.recency);
                    assert forall|other: K| #[trigger]
                        self@.entries.contains_key(other) implies self@.entries[other] == old(self)@.entries.insert(key, value)[other] by {
                        if other != key {
                            old(self).lemma_indexed_key(other);
                        }
                    }
                    assert(self@.entries =~= old(self)@.entries.insert(key, value));
                }
                self.evict_if_needed();
                None
            },
        }
    }
}

} // verus!

//! Laws of the cache, stated over its mathematical state and proved once
//! for every key type, value type, capacity and history.

use crate::collections::{
    lemma_touched_keys, lemma_without_absent, lemma_without_at, lemma_without_keys, without,
    CacheModel,
};
use vstd::prelude::*;

verus! {

/// One operation on a cache, as data.
pub enum CacheOp<K, V> {
    Insert(K, V),
    Get(K),
    Peek(K),
    Remove(K),
    Clear,
}

/// The state after one operation.
pub open spec fn step<K, V>(m: CacheModel<K, V>, op: CacheOp<K, V>) -> CacheModel<K, V> {
    match op {
        CacheOp::Insert(key, value) => m.insert(key, value),
        CacheOp::Get(key) => m.promote(key),
        CacheOp::Peek(_) => m,
        CacheOp::Remove(key) => m.remove(key),
        CacheOp::Clear => m.clear(),
    }
}

/// The state after a sequence of operations, applied from left to right.
pub open spec fn run<K, V>(m: CacheModel<K, V>, ops: Seq<CacheOp<K, V>>) -> CacheModel<K, V>
    decreases ops.len(),
{
    if ops.len() == 0 {
        m
    } else {
        step(run(m, ops.drop_last()), ops.last())
    }
}

/// Eviction restores the capacity bound and keeps keys and values in step.
pub proof fn lemma_evict_wf<K, V>(m: CacheModel<K, V>)
    requires
        m.recency.no_duplicates(),
        m.entries.dom() =~= m.recency.to_set(),
    ensures
        m.evict().wf(),
        m.evict().capacity == m.capacity,
{
    if m.recency.len() > m.capacity {
        let kept = m.recency.take(m.capacity as int);
        assert forall|k: K| kept.to_set().contains(k) implies m.recency.to_set().contains(k) by {
            let j = choose|j: int| 0 <= j < kept.len() && kept[j] == k;
            assert(m.recency[j] == k);
        }
        assert(m.entries.restrict(kept.to_set()).dom() =~= kept.to_set());
    }
}

/// A well-formed state stays well formed under `insert`.
pub proof fn lemma_insert_wf<K, V>(m: CacheModel<K, V>, key: K, value: V)
    requires
        m.wf(),
    ensures
        m.insert(key, value).wf(),
        m.insert(key, value).capacity == m.capacity,
{
    lemma_touched_keys(m.recency, key);
    let touched = CacheModel {
        capacity: m.capacity,
        recency: seq![key] + without(m.recency, key),
        entries: m.entries.insert(key, value),
    };
    lemma_evict_wf(touched);
}

/// A well-formed state stays well formed under `promote`.
pub proof fn lemma_promote_wf<K, V>(m: CacheModel<K, V>, key: K)
    requires
        m.wf(),
    ensures
        m.promote(key).wf(),
        m.promote(key).capacity == m.capacity,
        m.promote(key).entries == m.entries,
        m.promote(key).len() == m.len(),
{
    if m.entries.contains_key(key) {
        assert(m.recency.to_set().contains(key));
        lemma_touched_keys(m.recency, key);
        assert(m.recency.to_set().insert(key) =~= m.recency.to_set());
    }
}

/// A well-formed state stays well formed under `remove`.
pub proof fn lemma_remove_wf<K, V>(m: CacheModel<K, V>, key: K)
    requires
        m.wf(),
    ensures
        m.remove(key).wf(),
        m.remove(key).capacity == m.capacity,
{
    lemma_without_keys(m.recency, key);
}

/// A well-formed state stays well formed under any operation.
pub proof fn lemma_step_wf<K, V>(m: CacheModel<K, V>, op: CacheOp<K, V>)
    requires
        m.wf(),
    ensures
        step(m, op).wf(),
        step(m, op).capacity == m.capacity,
{
    match op {
        CacheOp::Insert(key, value) => lemma_insert_wf(m, key, value),
        CacheOp::Get(key) => lemma_promote_wf(m, key),
        CacheOp::Peek(_) => {},
        CacheOp::Remove(key) => lemma_remove_wf(m, key),
        CacheOp::Clear => {
            assert(m.clear().entries.dom() =~= m.clear().recency.to_set());
        },
    }
}

/// Capacity bound: whatever operations are applied to a well-formed cache,
/// in whatever order, it never holds more entries than its capacity, and
/// its capacity never changes.
pub proof fn law_capacity_bound<K, V>(m: CacheModel<K, V>, ops: Seq<CacheOp<K, V>>)
    requires
        m.wf(),
    ensures
        run(m, ops).wf(),
        run(m, ops).len() <= m.capacity,
        run(m, ops).capacity == m.capacity,
    decreases ops.len(),
{
    if ops.len() > 0 {
        law_capacity_bound(m, ops.drop_last());
        lemma_step_wf(run(m, ops.drop_last()), ops.last());
    }
}

/// Inserting a key that is not held while there is room puts it in front of
/// the others and evicts nothing.
pub proof fn law_insert_with_room<K, V>(m: CacheModel<K, V>, key: K, value: V)
    requires
        m.wf(),
        !m.entries.contains_key(key),
        m.len() < m.capacity,
    ensures
        m.insert(key, value).recency == seq![key] + m.recency,
        m.insert(key, value).entries == m.entries.insert(key, value),
{
    assert(!m.recency.to_set().contains(key));
    lemma_without_absent(m.recency, key);
}

/// Inserting a key that is not held into a full cache evicts exactly the
/// least recently used key, the last of the recency order, and no other.
pub proof fn law_insert_evicts_least_recent<K, V>(m: CacheModel<K, V>, key: K, value: V)
    requires
        m.wf(),
        !m.entries.contains_key(key),
        m.len() == m.capacity,
        m.capacity > 0,
    ensures
        m.insert(key, value).recency == seq![key] + m.recency.drop_last(),
        m.insert(key, value).entries == m.entries.remove(m.recency.last()).insert(key, value),
        m.insert(key, value).lookup(m.recency.last()) is None,
{
    assert(!m.recency.to_set().contains(key));
    lemma_without_absent(m.recency, key);
    let grown = seq![key] + m.recency;
    let kept = grown.take(m.capacity as int);
    let victim = m.recency.last();
    assert(kept =~= seq![key] + m.recency.drop_last());
    assert(m.recency.to_set().contains(victim)) by {
        assert(m.recency[m.recency.len() - 1] == victim);
    }
    assert forall|k: K| kept.to_set().contains(k) <==> (k == key || (m.recency.to_set().contains(k) && k
        != victim)) by {
        if kept.contains(k) {
            let j = choose|j: int| 0 <= j < kept.len() && kept[j] == k;
            if j > 0 {
                assert(m.recency[j - 1] == k);
            }
        }
        if k == key {
            assert(kept[0] == k);
        }
        if m.recency.contains(k) && k != victim {
            let j = choose|j: int| 0 <= j < m.recency.len() && m.recency[j] == k;
            assert(kept[j + 1] == k);
        }
    }
    assert(m.entries.insert(key, value).restrict(kept.to_set()) =~= m.entries.remove(victim).insert(
        key,
        value,
    ));
}

/// Update: inserting under a key that is held replaces its value, makes it
/// the most recently used, and neither evicts nor adds an entry.
pub proof fn law_insert_updates_held_key<K, V>(m: CacheModel<K, V>, key: K, value: V)
    requires
        m.wf(),
        m.entries.contains_key(key),
    ensures
        m.insert(key, value).recency == seq![key] + without(m.recency, key),
        m.insert(key, value).entries == m.entries.insert(key, value),
        m.insert(key, value).len() == m.len(),
        m.insert(key, value).lookup(key) == Some(value),
{
    assert(m.recency.to_set().contains(key));
    lemma_touched_keys(m.recency, key);
}

/// Recency promotion: a key that was just read or written is the most
/// recently used, so while another key is held it is not the next to leave.
pub proof fn law_touched_key_is_protected<K, V>(m: CacheModel<K, V>, key: K, value: V)
    requires
        m.wf(),
        m.entries.contains_key(key),
        m.len() >= 2,
    ensures
        m.promote(key).recency[0] == key,
        m.promote(key).eviction_candidate() != Some(key),
        m.insert(key, value).recency[0] == key,
        m.insert(key, value).eviction_candidate() != Some(key),
{
    assert(m.recency.to_set().contains(key));
    lemma_touched_keys(m.recency, key);
    law_insert_updates_held_key(m, key, value);
    let moved = seq![key] + without(m.recency, key);
    assert(moved[0] == key);
    assert(moved[moved.len() - 1] != moved[0]);
}

/// Removing a key that is not held changes nothing.
pub proof fn law_remove_absent_is_noop<K, V>(m: CacheModel<K, V>, key: K)
    requires
        m.wf(),
        !m.entries.contains_key(key),
    ensures
        m.remove(key) == m,
        m.lookup(key) is None,
{
    assert(!m.recency.to_set().contains(key));
    lemma_without_absent(m.recency, key);
    assert(m.entries.remove(key) =~= m.entries);
}

/// Clear resets fully: a cleared cache is the freshly constructed cache of
/// the same capacity, so every later history runs on it as on a new one.
pub proof fn law_clear_is_fresh<K, V>(m: CacheModel<K, V>, ops: Seq<CacheOp<K, V>>)
    ensures
        m.clear() == CacheModel::<K, V>::empty(m.capacity),
        m.clear().len() == 0,
        run(m.clear(), ops) == run(CacheModel::<K, V>::empty(m.capacity), ops),
{
}

/// Zero capacity: a cache of capacity 0 holds nothing, and an insert leaves
/// it as it was.
pub proof fn law_zero_capacity_retains_nothing<K, V>(m: CacheModel<K, V>, key: K, value: V)
    requires
        m.wf(),
        m.capacity == 0,
    ensures
        m == CacheModel::<K, V>::empty(0),
        m.insert(key, value) == m,
        m.insert(key, value).lookup(key) is None,
{
    assert(m.recency =~= Seq::<K>::empty());
    assert(m.entries =~= Map::<K, V>::empty());
    lemma_without_absent(m.recency, key);
    let grown = seq![key] + m.recency;
    assert(grown.take(0) =~= Seq::<K>::empty());
    assert(m.entries.insert(key, value).restrict(Seq::<K>::empty().to_set()) =~= Map::<K, V>::empty());
}

/// No operation but an insert under `key` changes the value that a state
/// holds for `key`: it either keeps it or drops it.
pub proof fn lemma_step_keeps_value<K, V>(m: CacheModel<K, V>, op: CacheOp<K, V>, key: K)
    requires
        m.wf(),
        !(op matches CacheOp::Insert(k, _) && k == key),
        step(m, op).entries.contains_key(key),
    ensures
        m.entries.contains_key(key),
        step(m, op).entries[key] == m.entries[key],
{
}

/// Round trip: after `insert(key, value)`, whatever operations follow, as
/// long as none of them inserts under `key` again, the cache either no
/// longer holds `key` (it was evicted, removed or cleared) or holds exactly
/// `value` for it.
pub proof fn law_round_trip<K, V>(m: CacheModel<K, V>, key: K, value: V, ops: Seq<CacheOp<K, V>>)
    requires
        m.wf(),
        forall|i: int| 0 <= i < ops.len() ==> !(#[trigger] ops[i] matches CacheOp::Insert(k, _) && k == key),
    ensures
        m.capacity > 0 ==> m.insert(key, value).lookup(key) == Some(value),
        run(m.insert(key, value), ops).entries.contains_key(key) ==> run(
            m.insert(key, value),
            ops,
        ).lookup(key) == Some(value),
    decreases ops.len(),
{
    lemma_insert_wf(m, key, value);
    let start = m.insert(key, value);
    if ops.len() == 0 {
        if m.capacity > 0 {
            let grown = seq![key] + without(m.recency, key);
            if grown.len() > m.capacity {
                assert(grown.take(m.capacity as int)[0] == key);
            }
        }
    } else {
        law_round_trip(m, key, value, ops.drop_last());
        law_capacity_bound(start, ops.drop_last());
        let before = run(start, ops.drop_last());
        assert(ops.last() == ops[ops.len() - 1]);
        if step(before, ops.last()).entries.contains_key(key) {
            lemma_step_keeps_value(before, ops.last(), key);
        }
    }
}

/// A cache of capacity 2 that was given `a`, then `b`: it holds both, `b`
/// as the more recently used.
pub proof fn lemma_two_keys<K, V>(a: K, b: K, va: V, vb: V)
    requires
        a != b,
    ensures
        CacheModel::<K, V>::empty(2).insert(a, va).insert(b, vb).wf(),
        CacheModel::<K, V>::empty(2).insert(a, va).insert(b, vb).capacity == 2,
        CacheModel::<K, V>::empty(2).insert(a, va).insert(b, vb).recency == seq![b, a],
        CacheModel::<K, V>::empty(2).insert(a, va).insert(b, vb).entries == Map::<K, V>::empty().insert(
            a,
            va,
        ).insert(b, vb),
{
    let none = CacheModel::<K, V>::empty(2);
    assert(none.entries.dom() =~= none.recency.to_set());
    law_insert_with_room(none, a, va);
    lemma_insert_wf(none, a, va);
    let one = none.insert(a, va);
    assert(one.recency =~= seq![a]);
    law_insert_with_room(one, b, vb);
    lemma_insert_wf(one, b, vb);
    assert(one.insert(b, vb).recency =~= seq![b, a]);
}

/// Recency promotion: a cache of capacity 2 is given `a`, then `b`; `a` is
/// read; a third key `c` is inserted. Then `b` has left, and `a` and `c`
/// are held with their values.
pub proof fn law_read_key_outlives_unread_key<K, V>(a: K, b: K, c: K, va: V, vb: V, vc: V)
    requires
        a != b,
        a != c,
        b != c,
    ensures
        CacheModel::<K, V>::empty(2).insert(a, va).insert(b, vb).promote(a).insert(c, vc).lookup(b)
            is None,
        CacheModel::<K, V>::empty(2).insert(a, va).insert(b, vb).promote(a).insert(c, vc).lookup(a)
            == Some(va),
        CacheModel::<K, V>::empty(2).insert(a, va).insert(b, vb).promote(a).insert(c, vc).lookup(c)
            == Some(vc),
{
    lemma_two_keys(a, b, va, vb);
    let two = CacheModel::<K, V>::empty(2).insert(a, va).insert(b, vb);
    lemma_promote_wf(two, a);
    lemma_without_at(two.recency, 1);
    let read = two.promote(a);
    assert(read.recency =~= seq![a, b]);
    law_insert_evicts_least_recent(read, c, vc);
}

/// Peek does not promote: a cache of capacity 2 is given `a`, then `b`; `a`
/// is looked at without being read, which changes nothing; a third key `c`
/// is inserted. Then `a` has left, and `b` and `c` are held with their
/// values.
pub proof fn law_unread_key_leaves_first<K, V>(a: K, b: K, c: K, va: V, vb: V, vc: V)
    requires
        a != b,
        a != c,
        b != c,
    ensures
        step(CacheModel::<K, V>::empty(2).insert(a, va).insert(b, vb), CacheOp::Peek(a))
            == CacheModel::<K, V>::empty(2).insert(a, va).insert(b, vb),
        CacheModel::<K, V>::empty(2).insert(a, va).insert(b, vb).insert(c, vc).lookup(a) is None,
        CacheModel::<K, V>::empty(2).insert(a, va).insert(b, vb).insert(c, vc).lookup(b) == Some(vb),
        CacheModel::<K, V>::empty(2).insert(a, va).insert(b, vb).insert(c, vc).lookup(c) == Some(vc),
{
    lemma_two_keys(a, b, va, vb);
    let two = CacheModel::<K, V>::empty(2).insert(a, va).insert(b, vb);
    law_insert_evicts_least_recent(two, c, vc);
}

/// Update: a key that is inserted twice in a row is held once, with the
/// second value, and the first value is what the second insert finds.
pub proof fn law_second_insert_replaces<K, V>(m: CacheModel<K, V>, key: K, first: V, second: V)
    requires
        m.wf(),
        m.capacity > 0,
    ensures
        m.insert(key, first).lookup(key) == Some(first),
        m.insert(key, first).insert(key, second).lookup(key) == Some(second),
        m.insert(key, first).insert(key, second).len() == m.insert(key, first).len(),
{
    law_round_trip(m, key, first, Seq::empty());
    lemma_insert_wf(m, key, first);
    law_insert_updates_held_key(m.insert(key, first), key, second);
}

} // verus!

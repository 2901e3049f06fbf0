//! The recency order of a cache as a doubly linked list of slot numbers.
//!
//! A slot is an index into the vectors of the list. A slot that is linked
//! knows the slot before it (used more recently) and the slot after it (used
//! less recently), so linking in front, unlinking anywhere and finding the
//! last slot take constant time.

use crate::collections::{lemma_without_at, without};
use vstd::prelude::*;

verus! {

/// A doubly linked list over the slots `0..slots()`, from the most
/// recently used slot to the least recently used one.
#[derive(Debug)]
pub(crate) struct RecencyList {
    /// For each slot: the linked slot before it, if it is linked and not the
    /// first.
    prev: Vec<Option<usize>>,
    /// For each slot: the linked slot after it, if it is linked and not the
    /// last.
    next: Vec<Option<usize>>,
    /// The first linked slot.
    head: Option<usize>,
    /// The last linked slot.
    tail: Option<usize>,
}

/// Whether links say that the linked slots are `order`: the first and the
/// last are the ends of `order`, and each linked slot knows its neighbours
/// in `order`.
spec fn linked(
    prev: Seq<Option<usize>>,
    next: Seq<Option<usize>>,
    head: Option<usize>,
    tail: Option<usize>,
    order: Seq<usize>,
) -> bool {
    &&& prev.len() == next.len()
    &&& order.no_duplicates()
    &&& forall|p: int| 0 <= p < order.len() ==> (#[trigger] order[p]) < prev.len()
    &&& head == if order.len() == 0 {
        None
    } else {
        Some(order[0])
    }
    &&& tail == if order.len() == 0 {
        None
    } else {
        Some(order[order.len() - 1])
    }
    &&& forall|p: int|
        0 <= p < order.len() ==> prev[(#[trigger] order[p]) as int] == if p == 0 {
            None
        } else {
            Some(order[p - 1])
        }
    &&& forall|p: int|
        0 <= p < order.len() ==> next[(#[trigger] order[p]) as int] == if p == order.len() - 1 {
            None
        } else {
            Some(order[p + 1])
        }
}

/// Unlinking the slot at position `at`: its neighbours are linked to each
/// other, and the ends move where it was an end.
proof fn lemma_unlink(
    prev: Seq<Option<usize>>,
    next: Seq<Option<usize>>,
    head: Option<usize>,
    tail: Option<usize>,
    order: Seq<usize>,
    at: int,
)
    requires
        linked(prev, next, head, tail, order),
        0 <= at < order.len(),
    ensures
        linked(
            if at + 1 < order.len() {
                prev.update(order[at + 1] as int, prev[order[at] as int])
            } else {
                prev
            },
            if at > 0 {
                next.update(order[at - 1] as int, next[order[at] as int])
            } else {
                next
            },
            if at == 0 {
                next[order[at] as int]
            } else {
                head
            },
            if at + 1 == order.len() {
                prev[order[at] as int]
            } else {
                tail
            },
            order.remove(at),
        ),
{
    let after = order.remove(at);
    let new_prev = if at + 1 < order.len() {
        prev.update(order[at + 1] as int, prev[order[at] as int])
    } else {
        prev
    };
    let new_next = if at > 0 {
        next.update(order[at - 1] as int, next[order[at] as int])
    } else {
        next
    };
    assert forall|p: int| 0 <= p < after.len() implies #[trigger] after[p] == order[if p < at {
        p
    } else {
        p + 1
    }] by {}
    assert(after.no_duplicates());
    assert forall|p: int| 0 <= p < after.len() implies new_prev[(#[trigger] after[p]) as int] == if p
        == 0 {
        None
    } else {
        Some(after[p - 1])
    } by {
        let q = if p < at {
            p
        } else {
            p + 1
        };
        assert(after[p] == order[q]);
        assert(prev[order[q] as int] == if q == 0 {
            None
        } else {
            Some(order[q - 1])
        });
        if at + 1 < order.len() {
            if q == at + 1 {
                assert(prev[order[at] as int] == if at == 0 {
                    None
                } else {
                    Some(order[at - 1])
                });
            } else {
                assert(order[q] != order[at + 1]);
            }
        }
    }
    assert forall|p: int| 0 <= p < after.len() implies new_next[(#[trigger] after[p]) as int] == if p
        == after.len() - 1 {
        None
    } else {
        Some(after[p + 1])
    } by {
        let q = if p < at {
            p
        } else {
            p + 1
        };
        assert(after[p] == order[q]);
        assert(next[order[q] as int] == if q == order.len() - 1 {
            None
        } else {
            Some(order[q + 1])
        });
        if at > 0 {
            if q == at - 1 {
                assert(next[order[at] as int] == if at == order.len() - 1 {
                    None
                } else {
                    Some(order[at + 1])
                });
            } else {
                assert(order[q] != order[at - 1]);
            }
        }
    }
    assert(next[order[at] as int] == if at == order.len() - 1 {
        None
    } else {
        Some(order[at + 1])
    });
    assert(prev[order[at] as int] == if at == 0 {
        None
    } else {
        Some(order[at - 1])
    });
}

impl RecencyList {
    /// Whether the links say that the linked slots are `order`.
    spec fn links_match(&self, order: Seq<usize>) -> bool {
        linked(self.prev@, self.next@, self.head, self.tail, order)
    }

    /// The links are those of some order of slots.
    pub(crate) closed spec fn wf(&self) -> bool {
        exists|order: Seq<usize>| self.links_match(order)
    }

    /// The linked slots, from the most recently used to the least.
    pub(crate) closed spec fn order(&self) -> Seq<usize> {
        choose|order: Seq<usize>| self.links_match(order)
    }

    /// The number of slots, linked or not.
    pub(crate) closed spec fn slots(&self) -> nat {
        self.prev@.len()
    }

    /// Two orders that the links match agree up to any position.
    proof fn lemma_same_prefix(&self, a: Seq<usize>, b: Seq<usize>, p: int)
        requires
            self.links_match(a),
            self.links_match(b),
            0 <= p < a.len(),
        ensures
            p < b.len(),
            a[p] == b[p],
        decreases p,
    {
        if p > 0 {
            self.lemma_same_prefix(a, b, p - 1);
            assert(self.next@[a[p - 1] as int] == Some(a[p]));
            assert(self.next@[b[p - 1] as int] == Some(a[p]));
        }
    }

    /// The links match one order only.
    proof fn lemma_only_order(&self, order: Seq<usize>)
        requires
            self.links_match(order),
        ensures
            self.wf(),
            self.order() == order,
    {
        let chosen = self.order();
        assert(self.links_match(chosen));
        assert forall|p: int| 0 <= p < order.len() implies p < chosen.len() && order[p] == chosen[p] by {
            self.lemma_same_prefix(order, chosen, p);
        }
        if chosen.len() > 0 {
            self.lemma_same_prefix(chosen, order, chosen.len() - 1);
        }
        assert(chosen =~= order);
    }

    /// No slot is linked twice, and every linked slot is a slot.
    pub(crate) proof fn lemma_order(&self)
        requires
            self.wf(),
        ensures
            self.order().no_duplicates(),
            forall|p: int| 0 <= p < self.order().len() ==> (#[trigger] self.order()[p]) < self.slots(),
    {
    }

    /// The list without slots.
    pub(crate) fn new() -> (list: Self)
        ensures
            list.wf(),
            list.order() == Seq::<usize>::empty(),
            list.slots() == 0,
    {
        let list = RecencyList { prev: Vec::new(), next: Vec::new(), head: None, tail: None };
        proof {
            list.lemma_only_order(Seq::empty());
        }
        list
    }

    /// The number of slots.
    pub(crate) fn slot_count(&self) -> (count: usize)
        ensures
            count == self.slots(),
    {
        self.prev.len()
    }

    /// Adds a slot, which is not linked; its number is the old count.
    pub(crate) fn add_slot(&mut self)
        requires
            old(self).wf(),
        ensures
            final(self).wf(),
            final(self).order() == old(self).order(),
            final(self).slots() == old(self).slots() + 1,
    {
        let ghost order = self.order();
        self.prev.push(None);
        self.next.push(None);
        proof {
            self.lemma_only_order(order);
        }
    }

    /// Forgets every slot.
    pub(crate) fn clear(&mut self)
        ensures
            final(self).wf(),
            final(self).order() == Seq::<usize>::empty(),
            final(self).slots() == 0,
    {
        self.prev.clear();
        self.next.clear();
        self.head = None;
        self.tail = None;
        proof {
            self.lemma_only_order(Seq::empty());
        }
    }

    /// The least recently used slot, if any slot is linked.
    pub(crate) fn last(&self) -> (slot: Option<usize>)
        requires
            self.wf(),
        ensures
            slot == if self.order().len() == 0 {
                None
            } else {
                Some(self.order().last())
            },
    {
        self.tail
    }

    /// Links a slot in front of the others.
    pub(crate) fn push_front(&mut self, slot: usize)
        requires
            old(self).wf(),
            slot < old(self).slots(),
            !old(self).order().contains(slot),
        ensures
            final(self).wf(),
            final(self).order() == seq![slot] + old(self).order(),
            final(self).slots() == old(self).slots(),
    {
        let ghost before = self.order();
        let ghost after = seq![slot] + before;
        match self.head {
            Some(first) => {
                assert(first == before[0]);
                self.prev[first] = Some(slot);
            },
            None => {
                self.tail = Some(slot);
            },
        }
        self.prev[slot] = None;
        self.next[slot] = self.head;
        self.head = Some(slot);
        proof {
            assert forall|p: int| 0 < p < after.len() implies after[p] == before[p - 1] && after[p]
                != slot by {
                assert(before.contains(before[p - 1]));
            }
            assert(after.no_duplicates());
            assert forall|p: int| 0 <= p < after.len() implies self.prev@[(#[trigger] after[p]) as int]
                == if p == 0 {
                None
            } else {
                Some(after[p - 1])
            } by {
                if p > 1 {
                    assert(before[p - 1] != before[0]);
                }
            }
            assert forall|p: int| 0 <= p < after.len() implies self.next@[(#[trigger] after[p]) as int]
                == if p == after.len() - 1 {
                None
            } else {
                Some(after[p + 1])
            } by {}
            self.lemma_only_order(after);
        }
    }

    /// Takes a linked slot out of the order; the others keep theirs.
    pub(crate) fn unlink(&mut self, slot: usize)
        requires
            old(self).wf(),
            old(self).order().contains(slot),
        ensures
            final(self).wf(),
            final(self).order() == without(old(self).order(), slot),
            final(self).slots() == old(self).slots(),
    {
        let ghost before = self.order();
        let ghost at = choose|p: int| 0 <= p < before.len() && before[p] == slot;
        proof {
            lemma_without_at(before, at);
            lemma_unlink(self.prev@, self.next@, self.head, self.tail, before, at);
        }
        let before_slot = self.prev[slot];
        let after_slot = self.next[slot];
        assert(before_slot == if at == 0 {
            None
        } else {
            Some(before[at - 1])
        });
        assert(after_slot == if at == before.len() - 1 {
            None
        } else {
            Some(before[at + 1])
        });
        match before_slot {
            Some(earlier) => {
                self.next[earlier] = after_slot;
            },
            None => {
                self.head = after_slot;
            },
        }
        match after_slot {
            Some(later) => {
                self.prev[later] = before_slot;
            },
            None => {
                self.tail = before_slot;
            },
        }
        proof {
            self.lemma_only_order(before.remove(at));
        }
    }
}

} // verus!

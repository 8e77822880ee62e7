//! The cursor over the pairs of a table, and the sequence of pairs it walks.

use crate::entry::HashEntry;
use crate::layout::holds;
use crate::layout::occupied_count;
use vstd::prelude::*;

verus! {

/// The pairs of the slots from `from` on, in the order of the slots: each
/// with its identity and its value.
pub open spec fn pairs_from<K, V>(slots: Seq<HashEntry<K, V>>, from: int) -> Seq<((u64, K), V)>
    decreases slots.len() - from,
{
    if from < 0 || from >= slots.len() {
        Seq::empty()
    } else {
        match slots[from] {
            HashEntry::Empty => pairs_from(slots, from + 1),
            HashEntry::Occupied { hash, key, value, .. } => seq![((hash, key), value)] + pairs_from(
                slots,
                from + 1,
            ),
        }
    }
}

/// The slot that holds the pair at position `at` of `pairs_from(slots, from)`.
pub open spec fn slot_of<K, V>(slots: Seq<HashEntry<K, V>>, from: int, at: int) -> int
    decreases slots.len() - from,
{
    if from < 0 || from >= slots.len() {
        from
    } else if slots[from] is Occupied && at == 0 {
        from
    } else if slots[from] is Occupied {
        slot_of(slots, from + 1, at - 1)
    } else {
        slot_of(slots, from + 1, at)
    }
}

/// There are as many pairs from `from` on as there are occupied slots.
pub proof fn lemma_pairs_len<K, V>(slots: Seq<HashEntry<K, V>>, from: int)
    requires
        0 <= from <= slots.len(),
    ensures
        pairs_from(slots, from).len() == occupied_count(slots, slots.len() as int) - occupied_count(
            slots,
            from,
        ),
    decreases slots.len() - from,
{
    if from < slots.len() {
        lemma_pairs_len(slots, from + 1);
    }
}

/// Each pair of the sequence is the pair of its slot, and the slots of later
/// pairs come later.
pub proof fn lemma_slot_of<K, V>(slots: Seq<HashEntry<K, V>>, from: int, at: int)
    requires
        0 <= from <= slots.len(),
        0 <= at < pairs_from(slots, from).len(),
    ensures
        from <= slot_of(slots, from, at) < slots.len(),
        holds(slots, slot_of(slots, from, at), pairs_from(slots, from)[at].0),
        slots[slot_of(slots, from, at)].spec_value() == Some(pairs_from(slots, from)[at].1),
        at > 0 ==> slot_of(slots, from, at - 1) < slot_of(slots, from, at),
    decreases slots.len() - from,
{
    if from < slots.len() {
        if slots[from] is Occupied {
            if at > 0 {
                lemma_slot_of(slots, from + 1, at - 1);
            }
        } else {
            lemma_slot_of(slots, from + 1, at);
        }
    }
}

/// The slots of two different positions differ.
pub proof fn lemma_slot_of_increasing<K, V>(slots: Seq<HashEntry<K, V>>, from: int, a: int, b: int)
    requires
        0 <= from <= slots.len(),
        0 <= a < b < pairs_from(slots, from).len(),
    ensures
        slot_of(slots, from, a) < slot_of(slots, from, b),
    decreases b - a,
{
    lemma_slot_of(slots, from, b);
    if a < b - 1 {
        lemma_slot_of_increasing(slots, from, a, b - 1);
    }
}

/// The pair of every occupied slot from `from` on is in the sequence.
pub proof fn lemma_pair_of_slot<K, V>(slots: Seq<HashEntry<K, V>>, from: int, slot: int) -> (at:
    int)
    requires
        0 <= from <= slot < slots.len(),
        slots[slot] is Occupied,
    ensures
        0 <= at < pairs_from(slots, from).len(),
        pairs_from(slots, from)[at] == (
            slots[slot].spec_id().unwrap(),
            slots[slot].spec_value().unwrap(),
        ),
    decreases slots.len() - from,
{
    if from == slot {
        0
    } else if slots[from] is Occupied {
        lemma_pair_of_slot(slots, from + 1, slot) + 1
    } else {
        lemma_pair_of_slot(slots, from + 1, slot)
    }
}

/// A cursor over the pairs of a table, in the order of its slots.
pub struct Iter<'a, K, V> {
    buckets: &'a [HashEntry<K, V>],
    index: usize,
    items_remaining: usize,
}

impl<'a, K, V> Iter<'a, K, V> {
    /// A cursor over all pairs of a slot array that holds `items` of them.
    pub(crate) fn new(buckets: &'a [HashEntry<K, V>], items: usize) -> (iter: Self)
        requires
            items == occupied_count(buckets@, buckets@.len() as int),
        ensures
            iter.wf(),
            iter.remaining() == pairs_from(buckets@, 0),
            iter.remaining().len() == items,
    {
        proof {
            lemma_pairs_len(buckets@, 0);
        }
        Iter { buckets, index: 0, items_remaining: items }
    }

    /// The cursor counts the pairs it has yet to yield.
    pub closed spec fn wf(&self) -> bool {
        &&& self.index <= self.buckets@.len()
        &&& self.items_remaining == pairs_from(self.buckets@, self.index as int).len()
    }

    /// The pairs the cursor has yet to yield, each with its identity and its
    /// value.
    pub closed spec fn remaining(&self) -> Seq<((u64, K), V)> {
        pairs_from(self.buckets@, self.index as int)
    }

    /// The next pair, or `None` when every pair was yielded.
    pub fn next(&mut self) -> (item: Option<(&'a K, &'a V)>)
        requires
            old(self).wf(),
        ensures
            final(self).wf(),
            match item {
                Some((key, value)) => {
                    &&& old(self).remaining().len() > 0
                    &&& *key == old(self).remaining()[0].0.1
                    &&& *value == old(self).remaining()[0].1
                    &&& final(self).remaining() == old(self).remaining().skip(1)
                },
                None => old(self).remaining().len() == 0 && final(self).remaining() == old(
                    self,
                ).remaining(),
            },
    {
        if self.items_remaining == 0 {
            return None;
        }
        while self.index < self.buckets.len()
            invariant
                self.wf(),
                self.buckets == old(self).buckets,
                self.remaining() == old(self).remaining(),
                self.items_remaining > 0,
            decreases self.buckets@.len() - self.index,
        {
            let entry = &self.buckets[self.index];
            self.index += 1;
            match entry {
                HashEntry::Occupied { key, value, .. } => {
                    self.items_remaining -= 1;
                    assert(self.remaining() =~= old(self).remaining().skip(1));
                    return Some((key, value));
                },
                HashEntry::Empty => {},
            }
        }
        None
    }

    /// The number of pairs yet to come, as the lower and the upper bound.
    pub fn size_hint(&self) -> (hint: (usize, Option<usize>))
        requires
            self.wf(),
        ensures
            hint.0 == self.remaining().len(),
            hint.1 == Some(hint.0),
    {
        (self.items_remaining, Some(self.items_remaining))
    }
}

} // verus!

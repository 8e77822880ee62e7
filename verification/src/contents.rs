//! Lemmas on what a slot array holds: its entries and the number of its
//! occupied slots.

use crate::entry::HashEntry;
use crate::layout::distinct;
use crate::layout::entries;
use crate::layout::entries_updated;
use crate::layout::holds;
use crate::layout::occupied_count;
use vstd::prelude::*;

verus! {

/// Where a slot holds a pair, the entries map the pair's identity to its
/// value.
pub proof fn lemma_entries_at<K, V>(slots: Seq<HashEntry<K, V>>, i: int)
    requires
        distinct(slots),
        0 <= i < slots.len(),
        slots[i] is Occupied,
    ensures
        entries(slots).contains_key(slots[i].spec_id().unwrap()),
        entries(slots)[slots[i].spec_id().unwrap()] == slots[i].spec_value().unwrap(),
{
    let id = slots[i].spec_id().unwrap();
    assert(holds(slots, i, id));
    let chosen = choose|j: int| holds(slots, j, id);
    assert(holds(slots, chosen, id));
}

/// An identity among the entries is held by some slot.
pub proof fn lemma_entries_witness<K, V>(slots: Seq<HashEntry<K, V>>, id: (u64, K)) -> (i: int)
    requires
        entries(slots).contains_key(id),
    ensures
        holds(slots, i, id),
{
    choose|i: int| holds(slots, i, id)
}

/// The entries after one slot is replaced: the pair the slot held is gone,
/// and the pair it now holds is there. The new pair must not be held by
/// another slot.
pub proof fn lemma_entries_update<K, V>(slots: Seq<HashEntry<K, V>>, i: int, entry: HashEntry<K, V>)
    requires
        distinct(slots),
        0 <= i < slots.len(),
        entry.spec_id() matches Some(id) ==> slots[i].spec_id() == Some(id) || !entries(
            slots,
        ).contains_key(id),
    ensures
        distinct(slots.update(i, entry)),
        entries(slots.update(i, entry)) == entries_updated(entries(slots), slots[i], entry),
{
    let after = slots.update(i, entry);
    let expected = entries_updated(entries(slots), slots[i], entry);
    assert forall|a: int, b: int, id: (u64, K)| #[trigger]
        holds(after, a, id) && #[trigger] holds(after, b, id) implies a == b by {
        if a != i && b != i {
            assert(holds(slots, a, id) && holds(slots, b, id));
        } else if a != b {
            let other = if a == i {
                b
            } else {
                a
            };
            assert(holds(slots, other, id));
            assert(entries(slots).contains_key(id));
            assert(holds(slots, i, id));
        }
    }
    assert forall|id: (u64, K)| #[trigger]
        entries(after).dom().contains(id) implies expected.dom().contains(id) && expected[id]
        == entries(after)[id] by {
        let w = lemma_entries_witness(after, id);
        lemma_entries_at(after, w);
        if w != i {
            assert(holds(slots, w, id));
            lemma_entries_at(slots, w);
            if slots[i].spec_id() == Some(id) {
                assert(holds(slots, i, id));
            }
            if entry.spec_id() == Some(id) {
                assert(holds(after, i, id));
            }
        }
    }
    assert forall|id: (u64, K)| #[trigger]
        expected.dom().contains(id) implies entries(after).dom().contains(id) by {
        if entry.spec_id() == Some(id) {
            assert(holds(after, i, id));
        } else {
            assert(entries(slots).contains_key(id));
            let w = lemma_entries_witness(slots, id);
            assert(w != i);
            assert(holds(after, w, id));
        }
    }
    assert(entries(after) =~= expected);
}

/// The entries of the first `n + 1` slots are those of the first `n` with
/// the pair of slot `n`, which is not among them.
pub proof fn lemma_entries_take_next<K, V>(slots: Seq<HashEntry<K, V>>, n: int)
    requires
        distinct(slots),
        0 <= n < slots.len(),
    ensures
        distinct(slots.take(n)),
        slots[n].spec_id() matches Some(id) ==> !entries(slots.take(n)).contains_key(id),
        entries(slots.take(n + 1)) == entries_updated(
            entries(slots.take(n)),
            HashEntry::Empty,
            slots[n],
        ),
{
    let shorter = slots.take(n);
    let longer = slots.take(n + 1);
    let expected = entries_updated(entries(shorter), HashEntry::Empty, slots[n]);
    assert forall|a: int, b: int, id: (u64, K)| #[trigger]
        holds(shorter, a, id) && #[trigger] holds(shorter, b, id) implies a == b by {
        assert(holds(slots, a, id) && holds(slots, b, id));
    }
    assert forall|a: int, b: int, id: (u64, K)| #[trigger]
        holds(longer, a, id) && #[trigger] holds(longer, b, id) implies a == b by {
        assert(holds(slots, a, id) && holds(slots, b, id));
    }
    if slots[n].spec_id() is Some {
        let id = slots[n].spec_id().unwrap();
        if entries(shorter).contains_key(id) {
            let w = lemma_entries_witness(shorter, id);
            assert(holds(slots, w, id) && holds(slots, n, id));
        }
    }
    assert forall|id: (u64, K)| #[trigger]
        entries(longer).dom().contains(id) implies expected.dom().contains(id) && expected[id]
        == entries(longer)[id] by {
        let w = lemma_entries_witness(longer, id);
        lemma_entries_at(longer, w);
        if w < n {
            assert(holds(shorter, w, id));
            lemma_entries_at(shorter, w);
            assert(holds(slots, w, id));
            if slots[n].spec_id() == Some(id) {
                assert(holds(slots, n, id));
            }
        }
    }
    assert forall|id: (u64, K)| #[trigger]
        expected.dom().contains(id) implies entries(longer).dom().contains(id) by {
        if slots[n].spec_id() == Some(id) {
            assert(holds(longer, n, id));
        } else {
            let w = lemma_entries_witness(shorter, id);
            assert(holds(longer, w, id));
        }
    }
    assert(entries(longer) =~= expected);
}

/// Among `n` slots, between none and `n` are occupied.
pub proof fn lemma_count_bounds<K, V>(slots: Seq<HashEntry<K, V>>, n: int)
    requires
        0 <= n,
    ensures
        0 <= occupied_count(slots, n) <= n,
    decreases n,
{
    if n > 0 {
        lemma_count_bounds(slots, n - 1);
    }
}

/// The count depends only on the slots counted.
pub proof fn lemma_count_agrees<K, V>(a: Seq<HashEntry<K, V>>, b: Seq<HashEntry<K, V>>, n: int)
    requires
        0 <= n <= a.len(),
        n <= b.len(),
        forall|j: int| 0 <= j < n ==> (#[trigger] a[j] is Occupied) == (b[j] is Occupied),
    ensures
        occupied_count(a, n) == occupied_count(b, n),
    decreases n,
{
    if n > 0 {
        lemma_count_agrees(a, b, n - 1);
    }
}

/// Replacing one slot changes the count by the difference in occupancy.
pub proof fn lemma_count_update<K, V>(
    slots: Seq<HashEntry<K, V>>,
    i: int,
    entry: HashEntry<K, V>,
    n: int,
)
    requires
        0 <= i < slots.len(),
        0 <= n <= slots.len(),
    ensures
        occupied_count(slots.update(i, entry), n) == occupied_count(slots, n) + if i < n {
            (if entry is Occupied {
                1int
            } else {
                0int
            }) - (if slots[i] is Occupied {
                1int
            } else {
                0int
            })
        } else {
            0int
        },
    decreases n,
{
    if n > 0 {
        lemma_count_update(slots, i, entry, n - 1);
    }
}

/// A prefix holds at most as many pairs as the whole.
pub proof fn lemma_count_monotonic<K, V>(slots: Seq<HashEntry<K, V>>, m: int, n: int)
    requires
        0 <= m <= n,
    ensures
        occupied_count(slots, m) <= occupied_count(slots, n),
    decreases n,
{
    if m < n {
        lemma_count_monotonic(slots, m, n - 1);
    }
}

/// Where no slot is counted as occupied, every slot is empty.
pub proof fn lemma_count_zero<K, V>(slots: Seq<HashEntry<K, V>>, n: int, i: int)
    requires
        0 <= i < n,
        occupied_count(slots, n) == 0,
    ensures
        slots[i] is Empty,
    decreases n,
{
    lemma_count_bounds(slots, n - 1);
    if i < n - 1 {
        lemma_count_zero(slots, n - 1, i);
    }
}

/// An array of empty slots holds no pair.
pub proof fn lemma_count_all_empty<K, V>(slots: Seq<HashEntry<K, V>>, n: int)
    requires
        0 <= n <= slots.len(),
        forall|j: int| 0 <= j < n ==> #[trigger] slots[j] is Empty,
    ensures
        occupied_count(slots, n) == 0,
    decreases n,
{
    if n > 0 {
        lemma_count_all_empty(slots, n - 1);
    }
}

/// Fewer occupied slots than slots: one of them is empty.
pub proof fn lemma_empty_slot_exists<K, V>(slots: Seq<HashEntry<K, V>>, n: int) -> (i: int)
    requires
        0 <= n <= slots.len(),
        occupied_count(slots, n) < n,
    ensures
        0 <= i < n,
        slots[i] is Empty,
    decreases n,
{
    if slots[n - 1] is Occupied {
        lemma_empty_slot_exists(slots, n - 1)
    } else {
        n - 1
    }
}

} // verus!

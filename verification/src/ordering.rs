//! Lemmas on the Robin Hood order: what it says of a probe sequence, and
//! which changes of a slot array keep it.

use crate::contents::lemma_count_agrees;
use crate::contents::lemma_entries_witness;
use crate::entry::HashEntry;
use crate::layout::desired_index;
use crate::layout::displaced_by;
use crate::layout::entries;
use crate::layout::holds;
use crate::layout::moved_up;
use crate::layout::occupied_count;
use crate::layout::ordered;
use crate::layout::ordered_around_hole;
use crate::layout::preceded;
use crate::layout::ring_add;
use crate::layout::ring_distance;
use crate::layout::ring_next;
use crate::layout::ring_prev;
use crate::layout::same_shape;
use crate::layout::shape;
use crate::layout::slot_ordered;
use crate::layout::within_bound;
use crate::policy::HashPolicy;
use vstd::prelude::*;

verus! {

/// On the way from the desired index of a pair to its slot, each step finds a
/// pair displaced at least as far as the step.
pub proof fn lemma_probe_chain<K, V, P: HashPolicy>(
    slots: Seq<HashEntry<K, V>>,
    policy: P,
    num_slots: usize,
    i: int,
    step: int,
)
    requires
        ordered(slots, policy, num_slots),
        0 <= i < slots.len(),
        slots[i] is Occupied,
        0 <= step <= slots[i].spec_displacement().unwrap(),
    ensures
        ({
            let len = slots.len() as int;
            let home = desired_index(policy, num_slots, len, slots[i]->hash);
            let at = ring_add(home, step, len);
            &&& 0 <= home < len
            &&& 0 <= at < len
            &&& slots[at].spec_displacement() matches Some(d) && d >= step
        }),
    decreases slots[i].spec_displacement().unwrap() - step,
{
    let len = slots.len() as int;
    let d = slots[i].spec_displacement().unwrap() as int;
    let home = desired_index(policy, num_slots, len, slots[i]->hash);
    assert(slot_ordered(slots, policy, num_slots, i));
    if step < d {
        lemma_probe_chain(slots, policy, num_slots, i, step + 1);
        let after = ring_add(home, step + 1, len);
        assert(slot_ordered(slots, policy, num_slots, after));
        assert(ring_prev(after, len) == ring_add(home, step, len));
    }
}

/// Probing for `id` may stop at step `distance`: where none of the earlier
/// steps found the pair, and the slot at this step is empty, or holds a pair
/// displaced less than `distance`, or holds another pair while no pair at all
/// is displaced further than `distance`, the pair is not in the table.
pub proof fn lemma_probe_stops<K, V, P: HashPolicy>(
    slots: Seq<HashEntry<K, V>>,
    policy: P,
    num_slots: usize,
    id: (u64, K),
    distance: int,
)
    requires
        ordered(slots, policy, num_slots),
        0 <= distance < slots.len(),
        forall|j: int|
            0 <= j < distance ==> !holds(
                slots,
                #[trigger] ring_add(
                    desired_index(policy, num_slots, slots.len() as int, id.0),
                    j,
                    slots.len() as int,
                ),
                id,
            ),
        ({
            let len = slots.len() as int;
            let at = ring_add(desired_index(policy, num_slots, len, id.0), distance, len);
            match slots[at] {
                HashEntry::Empty => true,
                HashEntry::Occupied { displacement, .. } => displacement < distance || (
                within_bound(slots, distance) && !holds(slots, at, id)),
            }
        }),
    ensures
        !entries(slots).contains_key(id),
{
    if entries(slots).contains_key(id) {
        let len = slots.len() as int;
        let home = desired_index(policy, num_slots, len, id.0);
        let w = lemma_entries_witness(slots, id);
        let d = slots[w].spec_displacement().unwrap() as int;
        assert(slot_ordered(slots, policy, num_slots, w));
        assert(slots[w].spec_displacement() is Some);
        if d < distance {
            assert(ring_add(home, d, len) == w);
        } else {
            lemma_probe_chain(slots, policy, num_slots, w, distance);
        }
    }
}

/// Where the probe for `id` has passed every step the bound allows without
/// finding the pair, the pair is not in the table.
pub proof fn lemma_probe_exhausted<K, V, P: HashPolicy>(
    slots: Seq<HashEntry<K, V>>,
    policy: P,
    num_slots: usize,
    id: (u64, K),
    distance: int,
)
    requires
        ordered(slots, policy, num_slots),
        within_bound(slots, distance - 1),
        forall|j: int|
            0 <= j < distance ==> !holds(
                slots,
                #[trigger] ring_add(
                    desired_index(policy, num_slots, slots.len() as int, id.0),
                    j,
                    slots.len() as int,
                ),
                id,
            ),
    ensures
        !entries(slots).contains_key(id),
{
    if entries(slots).contains_key(id) {
        let len = slots.len() as int;
        let home = desired_index(policy, num_slots, len, id.0);
        let w = lemma_entries_witness(slots, id);
        let d = slots[w].spec_displacement().unwrap() as int;
        assert(slot_ordered(slots, policy, num_slots, w));
        assert(slots[w].spec_displacement() is Some);
        assert(ring_add(home, d, len) == w);
    }
}

/// Where every step of a probe sequence up to `distance` finds an occupied
/// slot and some slot is empty, the sequence has not gone round the ring.
pub proof fn lemma_probe_short<K, V>(
    slots: Seq<HashEntry<K, V>>,
    home: int,
    distance: int,
    empty: int,
)
    requires
        0 <= home < slots.len(),
        0 <= empty < slots.len(),
        slots[empty] is Empty,
        0 <= distance < slots.len(),
        forall|j: int|
            0 <= j <= distance ==> slots[#[trigger] ring_add(
                home,
                j,
                slots.len() as int,
            )] is Occupied,
    ensures
        distance + 1 < slots.len(),
{
    let len = slots.len() as int;
    let at = ring_distance(home, empty, len);
    assert(ring_add(home, at, len) == empty);
}

/// Arrays of the same shape are ordered, bounded and filled alike.
pub proof fn lemma_same_shape<K, V, P: HashPolicy>(
    a: Seq<HashEntry<K, V>>,
    b: Seq<HashEntry<K, V>>,
    policy: P,
    num_slots: usize,
    max_lookups: int,
)
    requires
        same_shape(a, b),
    ensures
        ordered(a, policy, num_slots) ==> ordered(b, policy, num_slots),
        within_bound(a, max_lookups) ==> within_bound(b, max_lookups),
        occupied_count(a, a.len() as int) == occupied_count(b, b.len() as int),
{
    let len = a.len() as int;
    if ordered(a, policy, num_slots) {
        assert forall|i: int| 0 <= i < b.len() implies #[trigger] slot_ordered(
            b,
            policy,
            num_slots,
            i,
        ) by {
            assert(slot_ordered(a, policy, num_slots, i));
            assert(shape(a[i]) == shape(b[i]));
            assert(shape(a[ring_prev(i, len)]) == shape(b[ring_prev(i, len)]));
        }
    }
    if within_bound(a, max_lookups) {
        assert forall|i: int| 0 <= i < b.len() implies (#[trigger] b[i].spec_displacement() matches Some(
            d,
        ) ==> d <= max_lookups) by {
            assert(shape(a[i]) == shape(b[i]));
            assert(a[i].spec_displacement() is Some ==> a[i].spec_displacement().unwrap()
                <= max_lookups);
        }
    }
    assert forall|j: int| 0 <= j < len implies (#[trigger] a[j] is Occupied) == (b[j] is Occupied) by {
        assert(shape(a[j]) == shape(b[j]));
    }
    lemma_count_agrees(a, b, len);
}

/// Putting a pair into slot `i` keeps the order, where the pair lies its
/// displacement past its desired index, the slot before it allows that
/// displacement, and the pair is displaced at least as far as the pair it
/// replaces.
pub proof fn lemma_ordered_put<K, V, P: HashPolicy>(
    slots: Seq<HashEntry<K, V>>,
    policy: P,
    num_slots: usize,
    i: int,
    entry: HashEntry<K, V>,
)
    requires
        ordered(slots, policy, num_slots),
        slots.len() >= 2,
        0 <= i < slots.len(),
        entry is Occupied,
        entry->displacement < slots.len(),
        ring_add(
            desired_index(policy, num_slots, slots.len() as int, entry->hash),
            entry->displacement as int,
            slots.len() as int,
        ) == i,
        entry->displacement > 0 ==> preceded(slots, i, entry->displacement as int),
        slots[i].spec_displacement() matches Some(before) ==> entry->displacement >= before,
    ensures
        ordered(slots.update(i, entry), policy, num_slots),
{
    let after = slots.update(i, entry);
    let len = slots.len() as int;
    assert forall|j: int| 0 <= j < after.len() implies #[trigger] slot_ordered(
        after,
        policy,
        num_slots,
        j,
    ) by {
        assert(slot_ordered(slots, policy, num_slots, j));
        assert(ring_prev(i, len) != i);
    }
}

/// Emptying slot `i` keeps the order of every slot but the one after it.
pub proof fn lemma_ordered_clear<K, V, P: HashPolicy>(
    slots: Seq<HashEntry<K, V>>,
    policy: P,
    num_slots: usize,
    i: int,
    j: int,
)
    requires
        ordered(slots, policy, num_slots),
        0 <= i < slots.len(),
        0 <= j < slots.len(),
        j != ring_next(i, slots.len() as int),
    ensures
        slot_ordered(slots.update(i, HashEntry::Empty), policy, num_slots, j),
{
    assert(slot_ordered(slots, policy, num_slots, j));
}

/// A wider bound holds where a narrower one does, and a pair put within the
/// bound keeps it.
pub proof fn lemma_within_bound_put<K, V>(
    slots: Seq<HashEntry<K, V>>,
    max_lookups: int,
    wider: int,
    i: int,
    entry: HashEntry<K, V>,
)
    requires
        within_bound(slots, max_lookups),
        max_lookups <= wider,
        0 <= i < slots.len(),
        entry.spec_displacement() matches Some(d) ==> d <= wider,
    ensures
        within_bound(slots, wider),
        within_bound(slots.update(i, entry), wider),
{
    let after = slots.update(i, entry);
    assert forall|j: int| 0 <= j < slots.len() implies (#[trigger] slots[j].spec_displacement() matches Some(
        d,
    ) ==> d <= wider) by {}
    assert forall|j: int| 0 <= j < after.len() implies (#[trigger] after[j].spec_displacement() matches Some(
        d,
    ) ==> d <= wider) by {
        if j != i {
            assert(slots[j].spec_displacement() is Some ==> slots[j].spec_displacement().unwrap()
                <= max_lookups);
        }
    }
}

/// Taking a pair out of an ordered array leaves a hole with the gap of the
/// pair's displacement.
pub proof fn lemma_hole_opened<K, V, P: HashPolicy>(
    slots: Seq<HashEntry<K, V>>,
    policy: P,
    num_slots: usize,
    i: int,
)
    requires
        ordered(slots, policy, num_slots),
        slots.len() >= 2,
        0 <= i < slots.len(),
        slots[i] is Occupied,
    ensures
        ordered_around_hole(
            slots.update(i, HashEntry::Empty),
            policy,
            num_slots,
            i,
            slots[i]->displacement as int,
        ),
{
    let after = slots.update(i, HashEntry::Empty);
    let len = slots.len() as int;
    let next = ring_next(i, len);
    assert forall|j: int| 0 <= j < len && j != next implies #[trigger] slot_ordered(
        after,
        policy,
        num_slots,
        j,
    ) by {
        lemma_ordered_clear(slots, policy, num_slots, i, j);
    }
    assert(slot_ordered(slots, policy, num_slots, next));
    assert(slot_ordered(slots, policy, num_slots, i));
}

/// Moving the displaced pair after the hole up into the hole moves the hole
/// one slot on, with the gap of that pair's displacement.
pub proof fn lemma_hole_moved<K, V, P: HashPolicy>(
    slots: Seq<HashEntry<K, V>>,
    policy: P,
    num_slots: usize,
    hole: int,
    gap: int,
)
    requires
        slots.len() >= 3,
        0 <= hole < slots.len(),
        0 <= gap,
        ordered_around_hole(slots, policy, num_slots, hole, gap),
        slots[ring_next(hole, slots.len() as int)].spec_displacement() matches Some(d) && d > 0,
    ensures
        ({
            let next = ring_next(hole, slots.len() as int);
            ordered_around_hole(
                slots.update(next, HashEntry::Empty).update(hole, moved_up(slots[next])),
                policy,
                num_slots,
                next,
                slots[next]->displacement as int,
            )
        }),
{
    let len = slots.len() as int;
    let next = ring_next(hole, len);
    let after = slots.update(next, HashEntry::Empty).update(hole, moved_up(slots[next]));
    let beyond = ring_next(next, len);
    assert(slot_ordered(slots, policy, num_slots, beyond));
    assert forall|j: int| 0 <= j < len && j != beyond implies #[trigger] slot_ordered(
        after,
        policy,
        num_slots,
        j,
    ) by {
        if j != hole && j != next {
            assert(slot_ordered(slots, policy, num_slots, j));
        }
    }
}

/// Where the slot after the hole is empty or holds a pair at its desired
/// index, the array is in order.
pub proof fn lemma_hole_closed<K, V, P: HashPolicy>(
    slots: Seq<HashEntry<K, V>>,
    policy: P,
    num_slots: usize,
    hole: int,
    gap: int,
)
    requires
        0 <= hole < slots.len(),
        ordered_around_hole(slots, policy, num_slots, hole, gap),
        slots[ring_next(hole, slots.len() as int)].spec_displacement() matches Some(d) ==> d == 0,
    ensures
        ordered(slots, policy, num_slots),
{
    let len = slots.len() as int;
    let next = ring_next(hole, len);
    assert forall|j: int| 0 <= j < len implies #[trigger] slot_ordered(
        slots,
        policy,
        num_slots,
        j,
    ) by {
        if j != next {
            assert(slot_ordered(slots, policy, num_slots, j));
        }
    }
}

/// A pair displaced by `distance` is still there when a slot is replaced,
/// unless it was the pair of that slot and the new pair is displaced
/// otherwise.
pub proof fn lemma_displaced_put<K, V>(
    slots: Seq<HashEntry<K, V>>,
    i: int,
    entry: HashEntry<K, V>,
    distance: usize,
)
    requires
        0 <= i < slots.len(),
        displaced_by(slots, distance),
        slots[i].spec_displacement() != Some(distance) || entry.spec_displacement() == Some(
            distance,
        ),
    ensures
        displaced_by(slots.update(i, entry), distance),
{
    let after = slots.update(i, entry);
    let w = choose|w: int| 0 <= w < slots.len() && #[trigger] slots[w].spec_displacement() == Some(
        distance,
    );
    if w == i {
        assert(after[i].spec_displacement() == Some(distance));
    } else {
        assert(after[w].spec_displacement() == Some(distance));
    }
}

} // verus!

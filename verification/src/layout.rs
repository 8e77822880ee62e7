//! The mathematical model of the slot array: index arithmetic on a ring of
//! slots, the Robin Hood order of displacements, and the entries that an
//! array stands for.

use crate::entry::HashEntry;
use crate::policy::HashPolicy;
use vstd::prelude::*;

verus! {

/// The index reached from `start` after `steps` steps on a ring of `len`
/// slots, for `steps` at most `len`.
pub open spec fn ring_add(start: int, steps: int, len: int) -> int {
    if start + steps < len {
        start + steps
    } else {
        start + steps - len
    }
}

/// The index after `i` on a ring of `len` slots.
pub open spec fn ring_next(i: int, len: int) -> int {
    if i + 1 < len {
        i + 1
    } else {
        0
    }
}

/// The index before `i` on a ring of `len` slots.
pub open spec fn ring_prev(i: int, len: int) -> int {
    if i == 0 {
        len - 1
    } else {
        i - 1
    }
}

/// The number of steps from `from` forward to `to`.
pub open spec fn ring_distance(from: int, to: int, len: int) -> int {
    if from <= to {
        to - from
    } else {
        to - from + len
    }
}

/// The index at which probing for `hash` starts: the policy's index, taken
/// as zero where it lies beyond the storage or where the table reports no
/// capacity.
pub open spec fn desired_index<P: HashPolicy>(
    policy: P,
    num_slots: usize,
    len: int,
    hash: u64,
) -> int {
    if num_slots == 0 {
        0
    } else {
        let index = policy.spec_hash_index(hash, num_slots);
        if index < len {
            index as int
        } else {
            0
        }
    }
}

/// What the Robin Hood discipline asks of slot `i`: an occupied slot lies
/// exactly its displacement past the desired index of its hash, and the slot
/// before a displaced pair is occupied by a pair displaced at most one step
/// less.
pub open spec fn slot_ordered<K, V, P: HashPolicy>(
    slots: Seq<HashEntry<K, V>>,
    policy: P,
    num_slots: usize,
    i: int,
) -> bool {
    match slots[i] {
        HashEntry::Empty => true,
        HashEntry::Occupied { hash, displacement, .. } => {
            &&& displacement < slots.len()
            &&& ring_add(
                desired_index(policy, num_slots, slots.len() as int, hash),
                displacement as int,
                slots.len() as int,
            ) == i
            &&& displacement > 0 ==> preceded(slots, i, displacement as int)
        }
    }
}

/// The slot before `i` holds a pair whose displacement is at least
/// `displacement - 1`.
pub open spec fn preceded<K, V>(slots: Seq<HashEntry<K, V>>, i: int, displacement: int) -> bool {
    match slots[ring_prev(i, slots.len() as int)] {
        HashEntry::Empty => false,
        HashEntry::Occupied { displacement: before, .. } => before + 1 >= displacement,
    }
}

/// Every slot is in Robin Hood order.
pub open spec fn ordered<K, V, P: HashPolicy>(
    slots: Seq<HashEntry<K, V>>,
    policy: P,
    num_slots: usize,
) -> bool {
    forall|i: int| 0 <= i < slots.len() ==> #[trigger] slot_ordered(slots, policy, num_slots, i)
}

/// No pair is displaced by more than `max_lookups` steps.
pub open spec fn within_bound<K, V>(slots: Seq<HashEntry<K, V>>, max_lookups: int) -> bool {
    forall|i: int|
        0 <= i < slots.len() ==> (#[trigger] slots[i].spec_displacement() matches Some(d) ==> d
            <= max_lookups)
}

/// Some pair is displaced by exactly `distance` steps.
pub open spec fn displaced_by<K, V>(slots: Seq<HashEntry<K, V>>, distance: usize) -> bool {
    exists|i: int| 0 <= i < slots.len() && #[trigger] slots[i].spec_displacement() == Some(distance)
}

/// Slot `i` holds the pair identified by `id`.
pub open spec fn holds<K, V>(slots: Seq<HashEntry<K, V>>, i: int, id: (u64, K)) -> bool {
    0 <= i < slots.len() && slots[i].spec_id() == Some(id)
}

/// No two slots hold pairs with the same hash code and key.
pub open spec fn distinct<K, V>(slots: Seq<HashEntry<K, V>>) -> bool {
    forall|i: int, j: int, id: (u64, K)|
        #[trigger] holds(slots, i, id) && #[trigger] holds(slots, j, id) ==> i == j
}

/// The entries of a slot array: from the identity of each stored pair to its
/// value.
pub open spec fn entries<K, V>(slots: Seq<HashEntry<K, V>>) -> Map<(u64, K), V> {
    Map::new(
        |id: (u64, K)| exists|i: int| holds(slots, i, id),
        |id: (u64, K)| slots[choose|i: int| holds(slots, i, id)].spec_value().unwrap(),
    )
}

/// What a table with these entries holds under a hash code and key.
pub open spec fn lookup<K, V>(map: Map<(u64, K), V>, hash: u64, key: K) -> Option<V> {
    if map.contains_key((hash, key)) {
        Some(map[(hash, key)])
    } else {
        None
    }
}

/// A map of entries without the pair of `before` and with the pair of
/// `after`.
pub open spec fn entries_updated<K, V>(
    map: Map<(u64, K), V>,
    before: HashEntry<K, V>,
    after: HashEntry<K, V>,
) -> Map<(u64, K), V> {
    let without = match before.spec_id() {
        Some(id) => map.remove(id),
        None => map,
    };
    match after {
        HashEntry::Occupied { hash, key, value, .. } => without.insert((hash, key), value),
        HashEntry::Empty => without,
    }
}

/// The number of occupied slots among the first `n`.
pub open spec fn occupied_count<K, V>(slots: Seq<HashEntry<K, V>>, n: int) -> int
    decreases n,
{
    if n <= 0 {
        0
    } else {
        occupied_count(slots, n - 1) + if slots[n - 1] is Occupied {
            1int
        } else {
            0int
        }
    }
}

/// What the ordering of an array depends on: which slots are occupied, and the
/// hash code and displacement of each pair.
pub open spec fn shape<K, V>(entry: HashEntry<K, V>) -> Option<(u64, usize)> {
    match entry {
        HashEntry::Empty => None,
        HashEntry::Occupied { hash, displacement, .. } => Some((hash, displacement)),
    }
}

/// Two arrays of one length whose slots have the same shape.
pub open spec fn same_shape<K, V>(a: Seq<HashEntry<K, V>>, b: Seq<HashEntry<K, V>>) -> bool {
    &&& a.len() == b.len()
    &&& forall|i: int| 0 <= i < a.len() ==> shape(#[trigger] a[i]) == shape(b[i])
}

/// The order of an array in which the pair of slot `hole` was taken out and
/// the pairs behind it are yet to move up: every slot but the one after the
/// hole is in order, and the slot after the hole would be in order if the
/// hole held a pair displaced by `gap`.
pub open spec fn ordered_around_hole<K, V, P: HashPolicy>(
    slots: Seq<HashEntry<K, V>>,
    policy: P,
    num_slots: usize,
    hole: int,
    gap: int,
) -> bool {
    let len = slots.len() as int;
    let next = ring_next(hole, len);
    &&& slots[hole] is Empty
    &&& forall|j: int|
        0 <= j < len && j != next ==> #[trigger] slot_ordered(slots, policy, num_slots, j)
    &&& match slots[next] {
        HashEntry::Empty => true,
        HashEntry::Occupied { hash, displacement, .. } => {
            &&& displacement < len
            &&& ring_add(desired_index(policy, num_slots, len, hash), displacement as int, len)
                == next
            &&& displacement <= gap + 1
        },
    }
    &&& gap > 0 ==> (slots[ring_prev(hole, len)].spec_displacement() matches Some(d) && d + 1
        >= gap)
}

/// The pair of an occupied slot, moved one step towards its desired index.
pub open spec fn moved_up<K, V>(entry: HashEntry<K, V>) -> HashEntry<K, V> {
    match entry {
        HashEntry::Empty => HashEntry::Empty,
        HashEntry::Occupied { hash, key, value, displacement } => HashEntry::Occupied {
            hash,
            key,
            value,
            displacement: (displacement - 1) as usize,
        },
    }
}

} // verus!

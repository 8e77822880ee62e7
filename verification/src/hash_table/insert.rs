//! Insertion: Robin Hood placement, with growth where the probe bound is
//! passed.

use crate::contents::lemma_count_update;
use crate::contents::lemma_count_zero;
use crate::contents::lemma_empty_slot_exists;
use crate::contents::lemma_entries_at;
use crate::contents::lemma_entries_update;
use crate::entry::HashEntry;
use crate::hash_table::HashTable;
use crate::hash_table::MAX_LEN;
use crate::layout::desired_index;
use crate::layout::displaced_by;
use crate::layout::entries;
use crate::layout::holds;
use crate::layout::lookup;
use crate::layout::ring_add;
use crate::layout::ring_distance;
use crate::layout::ring_prev;
use crate::layout::slot_ordered;
use crate::ordering::lemma_displaced_put;
use crate::ordering::lemma_ordered_put;
use crate::ordering::lemma_probe_chain;
use crate::ordering::lemma_probe_exhausted;
use crate::ordering::lemma_probe_short;
use crate::ordering::lemma_probe_stops;
use crate::ordering::lemma_same_shape;
use crate::ordering::lemma_within_bound_put;
use crate::policy::HashPolicy;
use crate::policy::MIN_LOOKUPS;
use std::hash::BuildHasher;
use std::hash::Hash;
use vstd::laws_eq::obeys_concrete_eq;
use vstd::prelude::*;

verus! {

/// What a pass of placement did at one slot.
enum Step {
    /// The slot is empty.
    Vacant,
    /// The slot holds the pair to place: the values were exchanged.
    Matched,
    /// The slot held a pair displaced less: the pairs were exchanged.
    Stole,
    /// The slot holds another pair, displaced at least as far.
    Passed,
}

/// How one pass of placement ended.
pub(crate) enum Placement<K, V> {
    /// The pair was in the table: its value was replaced, and this is the
    /// value it had.
    Replaced(V),
    /// The pair was put into an empty slot.
    Inserted,
    /// The probe bound was passed before an empty slot was found: this pair
    /// is left over.
    Overflow { hash: u64, key: K, value: V },
}

impl<K, V, H, P> HashTable<K, V, H, P> where
    K: Hash + Eq,
    H: BuildHasher + Clone,
    P: HashPolicy + Default + Clone,
 {
    /// One pass of Robin Hood placement: walks from the desired index of the
    /// pair, and at each slot either replaces the value of the same pair
    /// (where `match_keys` asks for the comparison), fills an empty slot,
    /// takes the slot of a pair that is displaced less and goes on with that
    /// pair, or moves on. A `bounded` pass stops when the distance passes the
    /// probe bound; an unbounded one raises the bound instead, to the
    /// displacement of the pair that it then stores.
    fn place(&mut self, hash: u64, key: K, value: V, match_keys: bool, bounded: bool) -> (outcome:
        Placement<K, V>)
        requires
            old(self).wf(),
            old(self).num_elements <= MAX_LEN,
            old(self).num_elements + 1 < old(self).buckets@.len(),
            2 * (old(self).num_elements + 1) <= old(self).capacity(),
            !bounded ==> !match_keys,
            !match_keys && obeys_concrete_eq::<K>() ==> !old(self)@.contains_key((hash, key)),
        ensures
            final(self).wf(),
            final(self).buckets@.len() == old(self).buckets@.len(),
            final(self).num_slots == old(self).num_slots,
            final(self).build_hasher == old(self).build_hasher,
            final(self).max_lookups >= old(self).max_lookups,
            bounded ==> final(self).max_lookups == old(self).max_lookups,
            final(self).max_lookups == old(self).max_lookups || displaced_by(
                final(self).buckets@,
                final(self).max_lookups,
            ),
            displaced_by(old(self).buckets@, old(self).max_lookups) ==> displaced_by(
                final(self).buckets@,
                final(self).max_lookups,
            ),
            old(self).num_elements == 0 ==> outcome is Inserted,
            match outcome {
                Placement::Replaced(previous) => {
                    &&& match_keys
                    &&& final(self).num_elements == old(self).num_elements
                    &&& obeys_concrete_eq::<K>() ==> {
                        &&& old(self)@.contains_key((hash, key))
                        &&& previous == old(self)@[(hash, key)]
                        &&& final(self)@ == old(self)@.insert((hash, key), value)
                    }
                },
                Placement::Inserted => {
                    &&& final(self).num_elements == old(self).num_elements + 1
                    &&& obeys_concrete_eq::<K>() ==> {
                        &&& !old(self)@.contains_key((hash, key))
                        &&& final(self)@ == old(self)@.insert((hash, key), value)
                    }
                },
                Placement::Overflow { hash: left_hash, key: left_key, value: left_value } => {
                    &&& bounded
                    &&& final(self).num_elements == old(self).num_elements
                    &&& obeys_concrete_eq::<K>() ==> {
                        &&& !old(self)@.contains_key((hash, key))
                        &&& !final(self)@.contains_key((left_hash, left_key))
                        &&& final(self)@.insert((left_hash, left_key), left_value) == old(self)@.insert(
                            (hash, key),
                            value,
                        )
                    }
                },
            },
    {
        let len = self.buckets.len();
        let ghost before = self.buckets@;
        let ghost target = entries(before).insert((hash, key), value);
        let ghost empty = lemma_empty_slot_exists(before, len as int);
        let ghost mut stolen = false;
        let mut pending_hash = hash;
        let mut pending_key = key;
        let mut pending_value = value;
        let mut distance: usize = 0;
        let mut current: usize = self.desired_index(hash);
        loop
            invariant
                self.wf(),
                self.buckets@.len() == len,
                before.len() == len,
                len >= 2,
                self.num_slots == old(self).num_slots,
                self.build_hasher == old(self).build_hasher,
                self.num_elements == old(self).num_elements,
                self.num_elements + 1 < len,
                self.num_elements <= MAX_LEN,
                2 * (self.num_elements + 1) <= self.capacity(),
                self.max_lookups >= old(self).max_lookups,
                bounded ==> self.max_lookups == old(self).max_lookups,
                !bounded ==> !match_keys,
                self.max_lookups == old(self).max_lookups || displaced_by(
                    self.buckets@,
                    self.max_lookups,
                ),
                displaced_by(before, old(self).max_lookups) ==> displaced_by(
                    self.buckets@,
                    self.max_lookups,
                ),
                old(self).num_elements == 0 ==> distance == 0,
                before == old(self).buckets@,
                target == entries(before).insert((hash, key), value),
                0 <= empty < len,
                self.buckets@[empty] is Empty,
                distance < len,
                current == ring_add(
                    desired_index(self.build_hasher.policy, self.num_slots, len as int, pending_hash),
                    distance as int,
                    len as int,
                ),
                current < len,
                forall|j: int|
                    0 <= j < distance ==> (self.buckets@[#[trigger] ring_add(
                        desired_index(self.build_hasher.policy, self.num_slots, len as int, pending_hash),
                        j,
                        len as int,
                    )].spec_displacement() matches Some(d) && d >= j),
                obeys_concrete_eq::<K>() ==> {
                    &&& entries(self.buckets@).insert((pending_hash, pending_key), pending_value)
                        == target
                    &&& (stolen || !match_keys) ==> !entries(self.buckets@).contains_key(
                        (pending_hash, pending_key),
                    )
                    &&& stolen ==> !entries(before).contains_key((hash, key))
                    &&& !stolen ==> {
                        &&& self.buckets@ == before
                        &&& pending_hash == hash
                        &&& pending_key == key
                        &&& pending_value == value
                    }
                    &&& (!stolen && match_keys) ==> forall|j: int|
                        0 <= j < distance ==> !holds(
                            self.buckets@,
                            #[trigger] ring_add(
                                desired_index(
                                    self.build_hasher.policy,
                                    self.num_slots,
                                    len as int,
                                    pending_hash,
                                ),
                                j,
                                len as int,
                            ),
                            (pending_hash, pending_key),
                        )
                },
            decreases ring_distance(current as int, empty, len as int),
        {
            let ghost slots = self.buckets@;
            let ghost policy = self.build_hasher.policy;
            let ghost home = desired_index(policy, self.num_slots, len as int, pending_hash);
            let ghost pending_id = (pending_hash, pending_key);
            let ghost bound_before = self.max_lookups;
            proof {
                reveal(obeys_concrete_eq);
                if self.num_elements == 0 {
                    lemma_count_zero(slots, len as int, current as int);
                }
            }
            if distance > self.max_lookups {
                if bounded {
                    proof {
                        if obeys_concrete_eq::<K>() && !stolen && match_keys {
                            lemma_probe_exhausted(
                                slots,
                                policy,
                                self.num_slots,
                                pending_id,
                                distance as int,
                            );
                        }
                    }
                    return Placement::Overflow {
                        hash: pending_hash,
                        key: pending_key,
                        value: pending_value,
                    };
                }
                proof {
                    lemma_within_bound_put(
                        slots,
                        self.max_lookups as int,
                        distance as int,
                        empty,
                        HashEntry::Empty,
                    );
                }
                self.max_lookups = distance;
            }
            proof {
                let stops = match slots[current as int] {
                    HashEntry::Empty => true,
                    HashEntry::Occupied { displacement, .. } => displacement < distance,
                };
                if obeys_concrete_eq::<K>() && !stolen && match_keys && stops {
                    lemma_probe_stops(slots, policy, self.num_slots, pending_id, distance as int);
                }
            }
            let ghost reached = distance;
            let ghost pending = (pending_hash, pending_key, pending_value);
            let step = match &mut self.buckets[current] {
                HashEntry::Empty => Step::Vacant,
                HashEntry::Occupied {
                    hash: stored_hash,
                    key: stored_key,
                    value: stored_value,
                    displacement: stored_displacement,
                } => {
                    if match_keys && *stored_hash == pending_hash && *stored_key == pending_key {
                        std::mem::swap(stored_value, &mut pending_value);
                        Step::Matched
                    } else if *stored_displacement < distance {
                        std::mem::swap(stored_hash, &mut pending_hash);
                        std::mem::swap(stored_key, &mut pending_key);
                        std::mem::swap(stored_value, &mut pending_value);
                        std::mem::swap(stored_displacement, &mut distance);
                        Step::Stole
                    } else {
                        Step::Passed
                    }
                },
            };
            proof {
                assert(reached > 0 ==> ring_add(home, reached - 1, len as int) == ring_prev(
                    current as int,
                    len as int,
                ));
                assert(step is Vacant <==> slots[current as int] is Empty);
                assert(step is Vacant || step is Passed ==> self.buckets@ == slots && distance
                    == reached && (pending_hash, pending_key, pending_value) == pending);
                assert(step is Stole ==> slots[current as int]->displacement < reached);
                assert(slots[current as int].spec_displacement() matches Some(d) ==> d
                    <= bound_before);
                assert(step is Passed ==> self.max_lookups == bound_before);
                assert(step is Matched ==> self.max_lookups == bound_before);
            }
            match step {
                Step::Vacant => {
                    let entry = HashEntry::Occupied {
                        hash: pending_hash,
                        key: pending_key,
                        value: pending_value,
                        displacement: distance,
                    };
                    proof {
                        lemma_ordered_put(slots, policy, self.num_slots, current as int, entry);
                        lemma_within_bound_put(
                            slots,
                            self.max_lookups as int,
                            self.max_lookups as int,
                            current as int,
                            entry,
                        );
                        lemma_count_update(slots, current as int, entry, len as int);
                        if obeys_concrete_eq::<K>() {
                            lemma_entries_update(slots, current as int, entry);
                        }
                        let after = slots.update(current as int, entry);
                        if self.max_lookups > bound_before {
                            assert(after[current as int].spec_displacement() == Some(
                                self.max_lookups,
                            ));
                        } else if displaced_by(slots, self.max_lookups) {
                            lemma_displaced_put(slots, current as int, entry, self.max_lookups);
                        }
                    }
                    self.buckets[current] = entry;
                    self.num_elements += 1;
                    return Placement::Inserted;
                },
                Step::Matched => {
                    proof {
                        let after = self.buckets@;
                        let entry = after[current as int];
                        assert(after == slots.update(current as int, entry));
                        lemma_same_shape(
                            slots,
                            after,
                            policy,
                            self.num_slots,
                            self.max_lookups as int,
                        );
                        if obeys_concrete_eq::<K>() {
                            lemma_entries_at(slots, current as int);
                            lemma_entries_update(slots, current as int, entry);
                            assert(entries(after) =~= entries(slots).insert(
                                pending_id,
                                entry->value,
                            ));
                        }
                        if displaced_by(slots, self.max_lookups) {
                            lemma_displaced_put(slots, current as int, entry, self.max_lookups);
                        }
                    }
                    let previous = pending_value;
                    return Placement::Replaced(previous);
                },
                Step::Stole => {
                    proof {
                        let after = self.buckets@;
                        let entry = after[current as int];
                        assert(after == slots.update(current as int, entry));
                        assert(slot_ordered(slots, policy, self.num_slots, current as int));
                        lemma_ordered_put(slots, policy, self.num_slots, current as int, entry);
                        lemma_within_bound_put(
                            slots,
                            self.max_lookups as int,
                            self.max_lookups as int,
                            current as int,
                            entry,
                        );
                        lemma_count_update(slots, current as int, entry, len as int);
                        assert forall|j: int| 0 <= j < distance + 1 implies (after[#[trigger] ring_add(
                            desired_index(policy, self.num_slots, len as int, pending_hash),
                            j,
                            len as int,
                        )].spec_displacement() matches Some(d) && d >= j) by {
                            lemma_probe_chain(slots, policy, self.num_slots, current as int, j);
                        }
                        if obeys_concrete_eq::<K>() {
                            lemma_entries_at(slots, current as int);
                            lemma_entries_update(slots, current as int, entry);
                            assert(entries(after).insert((pending_hash, pending_key), pending_value)
                                =~= target);
                        }
                        if self.max_lookups > bound_before {
                            assert(after[current as int].spec_displacement() == Some(
                                self.max_lookups,
                            ));
                        } else if displaced_by(slots, self.max_lookups) {
                            lemma_displaced_put(slots, current as int, entry, self.max_lookups);
                        }
                        stolen = true;
                    }
                },
                Step::Passed => {},
            }
            proof {
                let now = self.buckets@;
                let home_now = desired_index(policy, self.num_slots, len as int, pending_hash);
                assert forall|j: int| 0 <= j <= distance implies now[#[trigger] ring_add(
                    home_now,
                    j,
                    len as int,
                )] is Occupied by {}
                lemma_probe_short(now, home_now, distance as int, empty);
            }
            distance += 1;
            current += 1;
            if current == len {
                current = 0;
            }
        }
    }

    /// Puts a pair that the table does not hold into a table with room for
    /// it, raising the probe bound where the pair, or one it displaces, must
    /// travel further than the bound.
    #[inline]
    pub(super) fn insert_during_resize(&mut self, hash: u64, key: K, value: V)
        requires
            old(self).wf(),
            old(self).num_elements <= MAX_LEN,
            old(self).num_elements + 1 < old(self).buckets@.len(),
            2 * (old(self).num_elements + 1) <= old(self).capacity(),
            obeys_concrete_eq::<K>() ==> !old(self)@.contains_key((hash, key)),
        ensures
            final(self).wf(),
            final(self).buckets@.len() == old(self).buckets@.len(),
            final(self).num_slots == old(self).num_slots,
            final(self).build_hasher == old(self).build_hasher,
            final(self).max_lookups >= old(self).max_lookups,
            final(self).max_lookups == old(self).max_lookups || displaced_by(
                final(self).buckets@,
                final(self).max_lookups,
            ),
            displaced_by(old(self).buckets@, old(self).max_lookups) ==> displaced_by(
                final(self).buckets@,
                final(self).max_lookups,
            ),
            final(self).num_elements == old(self).num_elements + 1,
            obeys_concrete_eq::<K>() ==> final(self)@ == old(self)@.insert((hash, key), value),
    {
        let _ = self.place(hash, key, value, false, false);
    }

    /// Stores `value` under this hash code and key, and returns the value
    /// that was stored there before.
    ///
    /// The table first grows where one more pair would fill more than half of
    /// its capacity, so that the pairs never fill more than half of it.
    /// Where the pair, or one that it displaces, would then travel further
    /// than the probe bound, the table grows again and the pair left over is
    /// placed anew; where the policy has no larger capacity to give, the
    /// probe bound is raised instead, to the displacement of the pair that
    /// needed it. The capacity never falls, and a pair that is replaced in a
    /// table with room leaves capacity, slots and probe bound as they were.
    pub fn insert_with_hash(&mut self, hash: u64, key: K, value: V) -> (previous: Option<V>)
        requires
            old(self).wf(),
            old(self).len() <= MAX_LEN,
        ensures
            final(self).wf(),
            final(self).spec_hasher() == old(self).spec_hasher(),
            final(self).spec_policy() == old(self).spec_policy(),
            final(self).len() == old(self).len() + if previous is None {
                1int
            } else {
                0int
            },
            final(self).len() < final(self).spec_slot_count(),
            2 * final(self).len() <= final(self).capacity(),
            final(self).capacity() >= old(self).capacity(),
            old(self).len() == 0 ==> previous is None,
            previous is Some && 2 * (old(self).len() + 1) <= old(self).capacity() ==> {
                &&& final(self).capacity() == old(self).capacity()
                &&& final(self).spec_slot_count() == old(self).spec_slot_count()
                &&& final(self).max_lookups() == old(self).max_lookups()
            },
            final(self).max_lookups() == old(self).max_lookups() || final(self).max_lookups()
                == MIN_LOOKUPS || final(self).probe_bound_reached(),
            obeys_concrete_eq::<K>() ==> {
                &&& final(self)@ == old(self)@.insert((hash, key), value)
                &&& previous == lookup(old(self)@, hash, key)
            },
    {
        self.reserve(1);
        let ghost target = old(self)@.insert((hash, key), value);
        let ghost reserved = *self;
        let ghost mut retried = false;
        let mut first_pass = true;
        let mut pending_hash = hash;
        let mut pending_key = key;
        let mut pending_value = value;
        loop
            invariant
                self.wf(),
                self.num_elements + 1 < self.buckets@.len(),
                self.num_elements == old(self).num_elements,
                self.num_elements <= MAX_LEN,
                self.build_hasher == old(self).build_hasher,
                2 * (self.num_elements + 1) <= self.capacity(),
                self.capacity() >= old(self).capacity(),
                first_pass == !retried,
                !retried ==> {
                    &&& self.num_slots == reserved.num_slots
                    &&& self.buckets@.len() == reserved.buckets@.len()
                    &&& self.max_lookups == reserved.max_lookups
                },
                2 * (old(self).num_elements + 1) <= old(self).capacity() ==> reserved == *old(self),
                self.max_lookups == old(self).max_lookups || self.max_lookups == MIN_LOOKUPS
                    || displaced_by(self.buckets@, self.max_lookups),
                target == old(self)@.insert((hash, key), value),
                obeys_concrete_eq::<K>() ==> {
                    &&& self@.insert((pending_hash, pending_key), pending_value) == target
                    &&& retried ==> !self@.contains_key((pending_hash, pending_key)) && !old(
                        self,
                    )@.contains_key((hash, key))
                    &&& !retried ==> self@ == old(self)@ && pending_hash == hash && pending_key
                        == key && pending_value == value
                },
            decreases usize::MAX - self.num_slots,
        {
            match self.place(pending_hash, pending_key, pending_value, first_pass, true) {
                Placement::Replaced(previous) => {
                    return Some(previous);
                },
                Placement::Inserted => {
                    return None;
                },
                Placement::Overflow { hash: left_hash, key: left_key, value: left_value } => {
                    if self.grow() {
                        pending_hash = left_hash;
                        pending_key = left_key;
                        pending_value = left_value;
                        first_pass = false;
                        proof {
                            retried = true;
                        }
                    } else {
                        self.insert_during_resize(left_hash, left_key, left_value);
                        return None;
                    }
                },
            }
        }
    }

    /// Stores `value` under `key` and the hash code the table's hasher gives
    /// it, and returns the value that was stored there before.
    #[inline]
    pub fn insert(&mut self, key: K, value: V) -> (previous: Option<V>)
        requires
            old(self).wf(),
            old(self).len() <= MAX_LEN,
        ensures
            final(self).wf(),
            final(self).spec_hasher() == old(self).spec_hasher(),
            final(self).spec_policy() == old(self).spec_policy(),
            final(self).len() == old(self).len() + if previous is None {
                1int
            } else {
                0int
            },
            final(self).len() < final(self).spec_slot_count(),
            2 * final(self).len() <= final(self).capacity(),
            final(self).capacity() >= old(self).capacity(),
            old(self).len() == 0 ==> previous is None,
            previous is Some && 2 * (old(self).len() + 1) <= old(self).capacity() ==> {
                &&& final(self).capacity() == old(self).capacity()
                &&& final(self).spec_slot_count() == old(self).spec_slot_count()
                &&& final(self).max_lookups() == old(self).max_lookups()
            },
            final(self).max_lookups() == old(self).max_lookups() || final(self).max_lookups()
                == MIN_LOOKUPS || final(self).probe_bound_reached(),
            obeys_concrete_eq::<K>() ==> exists|hash: u64|
                {
                    &&& final(self)@ == old(self)@.insert((hash, key), value)
                    &&& previous == #[trigger] lookup(old(self)@, hash, key)
                },
    {
        let hash = self.hash_key(&key);
        self.insert_with_hash(hash, key, value)
    }
}

} // verus!

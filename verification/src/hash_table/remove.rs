//! Removal with backward shift.

use crate::contents::lemma_count_bounds;
use crate::contents::lemma_count_update;
use crate::contents::lemma_empty_slot_exists;
use crate::contents::lemma_entries_at;
use crate::contents::lemma_entries_update;
use crate::entry::HashEntry;
use crate::hash_table::HashTable;
use crate::hash_table::spec_compute_max_lookups;
use crate::hash_table::spec_required_vec_len;
use crate::hash_table::MAX_LEN;
use crate::layout::distinct;
use crate::layout::entries;
use crate::layout::lookup;
use crate::layout::moved_up;
use crate::layout::occupied_count;
use crate::layout::ordered_around_hole;
use crate::layout::ring_distance;
use crate::layout::within_bound;
use crate::ordering::lemma_hole_closed;
use crate::ordering::lemma_hole_moved;
use crate::ordering::lemma_hole_opened;
use crate::ordering::lemma_within_bound_put;
use crate::policy::HashPolicy;
use std::hash::BuildHasher;
use std::hash::Hash;
use vstd::laws_eq::obeys_concrete_eq;
use vstd::prelude::*;

verus! {

impl<K, V, H, P> HashTable<K, V, H, P> where
    K: Hash + Eq,
    H: BuildHasher + Clone,
    P: HashPolicy + Default + Clone,
 {
    /// Takes the pair with this hash code and key out of the table and
    /// returns its value. The pairs behind the freed slot move up by one slot
    /// each, until an empty slot or a pair at its desired index.
    pub fn remove_with_hash(&mut self, hash: u64, key: &K) -> (removed: Option<V>)
        requires
            old(self).wf(),
        ensures
            final(self).wf(),
            final(self).spec_hasher() == old(self).spec_hasher(),
            final(self).spec_policy() == old(self).spec_policy(),
            final(self).capacity() == old(self).capacity(),
            final(self).spec_slot_count() == old(self).spec_slot_count(),
            final(self).max_lookups() == old(self).max_lookups(),
            final(self).len() == old(self).len() - if removed is Some {
                1int
            } else {
                0int
            },
            2 * final(self).len() <= final(self).capacity(),
            removed is None ==> *final(self) == *old(self),
            obeys_concrete_eq::<K>() ==> {
                &&& final(self)@ == old(self)@.remove((hash, *key))
                &&& removed == lookup(old(self)@, hash, *key)
            },
    {
        let found = self.find_index(hash, key);
        let mut hole_idx: usize = match found {
            Some(i) => i,
            None => {
                proof {
                    if obeys_concrete_eq::<K>() {
                        assert(self@.remove((hash, *key)) =~= self@);
                    }
                }
                return None;
            },
        };
        let len = self.buckets.len();
        let ghost before = self.buckets@;
        let ghost policy = self.build_hasher.policy;
        let ghost id = before[hole_idx as int].spec_id().unwrap();
        let ghost empty = lemma_empty_slot_exists(before, len as int);
        let ghost mut gap = before[hole_idx as int]->displacement as int;
        proof {
            lemma_count_update(before, hole_idx as int, HashEntry::Empty, len as int);
            lemma_count_bounds(before.update(hole_idx as int, HashEntry::Empty), len as int);
            lemma_hole_opened(before, policy, self.num_slots, hole_idx as int);
            lemma_within_bound_put(
                before,
                self.max_lookups as int,
                self.max_lookups as int,
                hole_idx as int,
                HashEntry::Empty,
            );
            if obeys_concrete_eq::<K>() {
                lemma_entries_at(before, hole_idx as int);
                lemma_entries_update(before, hole_idx as int, HashEntry::Empty);
            }
        }
        let mut taken = HashEntry::empty();
        std::mem::swap(&mut self.buckets[hole_idx], &mut taken);
        match taken {
            HashEntry::Empty => None,
            HashEntry::Occupied { value: removed_value, .. } => {
                self.num_elements -= 1;
                loop
                    invariant
                        self.buckets@.len() == len,
                        len >= 2,
                        hole_idx < len,
                        0 <= empty < len,
                        empty != hole_idx,
                        self.buckets@[empty] is Empty,
                        0 <= gap,
                        self.num_slots == old(self).num_slots,
                        self.max_lookups == old(self).max_lookups,
                        self.build_hasher == old(self).build_hasher,
                        policy == self.build_hasher.policy,
                        self.num_slots < usize::MAX,
                        self.max_lookups < len,
                        len == spec_required_vec_len((self.num_slots + 1) as usize),
                        self.max_lookups >= spec_compute_max_lookups((self.num_slots + 1) as usize),
                        self.num_elements == old(self).num_elements - 1,
                        self.num_elements < len,
                        self.num_elements <= MAX_LEN,
                        2 * self.num_elements <= self.capacity(),
                        self.num_elements == occupied_count(self.buckets@, len as int),
                        ordered_around_hole(
                            self.buckets@,
                            policy,
                            self.num_slots,
                            hole_idx as int,
                            gap,
                        ),
                        within_bound(self.buckets@, self.max_lookups as int),
                        obeys_concrete_eq::<K>() ==> distinct(self.buckets@),
                        obeys_concrete_eq::<K>() ==> entries(self.buckets@) == old(self)@.remove(id),
                    ensures
                        self.wf(),
                        self.buckets@.len() == len,
                        self.num_slots == old(self).num_slots,
                        self.max_lookups == old(self).max_lookups,
                        self.build_hasher == old(self).build_hasher,
                        self.num_elements == old(self).num_elements - 1,
                        obeys_concrete_eq::<K>() ==> entries(self.buckets@) == old(self)@.remove(id),
                    decreases ring_distance(hole_idx as int, empty, len as int),
                {
                    let ghost slots = self.buckets@;
                    let mut candidate_to_shift_idx: usize = hole_idx + 1;
                    if candidate_to_shift_idx == len {
                        candidate_to_shift_idx = 0;
                    }
                    let at_rest: bool = match &self.buckets[candidate_to_shift_idx] {
                        HashEntry::Empty => true,
                        HashEntry::Occupied { displacement, .. } => *displacement == 0,
                    };
                    if at_rest {
                        proof {
                            lemma_hole_closed(slots, policy, self.num_slots, hole_idx as int, gap);
                        }
                        break;
                    }
                    let mut moved = HashEntry::empty();
                    std::mem::swap(&mut self.buckets[candidate_to_shift_idx], &mut moved);
                    match &mut moved {
                        HashEntry::Occupied { displacement, .. } => {
                            *displacement = *displacement - 1;
                        },
                        HashEntry::Empty => {},
                    }
                    proof {
                        let next = candidate_to_shift_idx as int;
                        let cleared = slots.update(next, HashEntry::Empty);
                        assert(moved == moved_up(slots[next]));
                        lemma_hole_moved(slots, policy, self.num_slots, hole_idx as int, gap);
                        lemma_count_update(slots, next, HashEntry::Empty, len as int);
                        lemma_count_update(cleared, hole_idx as int, moved, len as int);
                        lemma_within_bound_put(
                            slots,
                            self.max_lookups as int,
                            self.max_lookups as int,
                            next,
                            HashEntry::Empty,
                        );
                        lemma_within_bound_put(
                            cleared,
                            self.max_lookups as int,
                            self.max_lookups as int,
                            hole_idx as int,
                            moved,
                        );
                        if obeys_concrete_eq::<K>() {
                            lemma_entries_at(slots, next);
                            lemma_entries_update(slots, next, HashEntry::Empty);
                            lemma_entries_update(cleared, hole_idx as int, moved);
                            assert(entries(cleared.update(hole_idx as int, moved)) =~= entries(
                                slots,
                            ));
                        }
                        gap = slots[next]->displacement as int;
                    }
                    self.buckets[hole_idx] = moved;
                    hole_idx = candidate_to_shift_idx;
                }
                Some(removed_value)
            },
        }
    }

    /// Takes the pair with `key` and the hash code the table's hasher gives
    /// it out of the table, and returns its value.
    #[inline]
    pub fn remove(&mut self, key: &K) -> (removed: Option<V>)
        requires
            old(self).wf(),
        ensures
            final(self).wf(),
            final(self).spec_hasher() == old(self).spec_hasher(),
            final(self).spec_policy() == old(self).spec_policy(),
            final(self).capacity() == old(self).capacity(),
            final(self).spec_slot_count() == old(self).spec_slot_count(),
            final(self).max_lookups() == old(self).max_lookups(),
            final(self).len() == old(self).len() - if removed is Some {
                1int
            } else {
                0int
            },
            2 * final(self).len() <= final(self).capacity(),
            removed is None ==> *final(self) == *old(self),
            obeys_concrete_eq::<K>() ==> exists|hash: u64|
                {
                    &&& final(self)@ == old(self)@.remove((hash, *key))
                    &&& removed == #[trigger] lookup(old(self)@, hash, *key)
                },
    {
        let hash = self.hash_key(key);
        self.remove_with_hash(hash, key)
    }
}

} // verus!

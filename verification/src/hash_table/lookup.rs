//! Lookup: bounded probing with early exit.

use crate::contents::lemma_count_zero;
use crate::contents::lemma_entries_at;
use crate::contents::lemma_entries_update;
use crate::contents::lemma_entries_witness;
use crate::entry::HashEntry;
use crate::hash_table::HashTable;
use crate::layout::desired_index;
use crate::layout::entries;
use crate::layout::holds;
use crate::layout::lookup;
use crate::layout::ring_add;
use crate::ordering::lemma_probe_stops;
use crate::ordering::lemma_same_shape;
use crate::policy::HashPolicy;
use std::hash::BuildHasher;
use std::hash::Hash;
use vstd::laws_eq::obeys_concrete_eq;
use vstd::prelude::*;

verus! {

impl<K, V, H, P> HashTable<K, V, H, P> where
    K: Hash + Eq,
    H: BuildHasher + Clone,
    P: HashPolicy + Default + Clone,
 {
    /// The index at which probing for `hash` starts.
    pub open spec fn spec_desired_index(&self, hash: u64) -> int {
        desired_index(
            self.spec_policy(),
            self.spec_num_slots(),
            self.spec_slot_count() as int,
            hash,
        )
    }

    /// The index at which probing for `hash` starts.
    #[inline]
    pub(super) fn desired_index(&self, hash: u64) -> (index: usize)
        ensures
            index == desired_index(
                self.build_hasher.policy,
                self.num_slots,
                self.buckets@.len() as int,
                hash,
            ),
            self.buckets@.len() > 0 ==> index < self.buckets@.len(),
    {
        if self.num_slots == 0 {
            return 0;
        }
        let index = self.build_hasher.policy.hash_index(hash, self.num_slots);
        if index >= self.buckets.len() {
            0
        } else {
            index
        }
    }

    /// The slot that holds the pair with this hash code and key, found by
    /// probing from the desired index until the pair, an empty slot, a pair
    /// displaced less than the distance travelled, or the probe bound.
    pub(super) fn find_index(&self, hash: u64, key: &K) -> (found: Option<usize>)
        requires
            self.wf(),
        ensures
            self.num_elements == 0 ==> found is None,
            match found {
                Some(i) => {
                    &&& i < self.buckets@.len()
                    &&& self.buckets@[i as int] is Occupied
                    &&& obeys_concrete_eq::<K>() ==> holds(self.buckets@, i as int, (hash, *key))
                },
                None => obeys_concrete_eq::<K>() ==> !self@.contains_key((hash, *key)),
            },
    {
        let len = self.buckets.len();
        if self.num_elements == 0 || len == 0 {
            proof {
                if self@.contains_key((hash, *key)) {
                    let w = lemma_entries_witness(self.buckets@, (hash, *key));
                    lemma_count_zero(self.buckets@, len as int, w);
                }
            }
            return None;
        }
        let ghost slots = self.buckets@;
        let ghost id = (hash, *key);
        let ghost home = desired_index(self.build_hasher.policy, self.num_slots, len as int, hash);
        let mut current = self.desired_index(hash);
        let mut distance: usize = 0;
        loop
            invariant
                self.wf(),
                slots == self.buckets@,
                len == slots.len(),
                len > 0,
                self.num_elements > 0,
                id == (hash, *key),
                home == desired_index(self.build_hasher.policy, self.num_slots, len as int, hash),
                distance <= self.max_lookups,
                current == ring_add(home, distance as int, len as int),
                0 <= home < len,
                obeys_concrete_eq::<K>() ==> forall|j: int|
                    0 <= j < distance ==> !holds(
                        slots,
                        #[trigger] ring_add(home, j, len as int),
                        id,
                    ),
            decreases self.max_lookups - distance,
        {
            proof {
                reveal(obeys_concrete_eq);
            }
            match &self.buckets[current] {
                HashEntry::Empty => {
                    proof {
                        if obeys_concrete_eq::<K>() {
                            lemma_probe_stops(
                                slots,
                                self.build_hasher.policy,
                                self.num_slots,
                                id,
                                distance as int,
                            );
                        }
                    }
                    return None;
                },
                HashEntry::Occupied { hash: stored_hash, key: stored_key, displacement, .. } => {
                    if *displacement < distance {
                        proof {
                            if obeys_concrete_eq::<K>() {
                                lemma_probe_stops(
                                    slots,
                                    self.build_hasher.policy,
                                    self.num_slots,
                                    id,
                                    distance as int,
                                );
                            }
                        }
                        return None;
                    }
                    if *stored_hash == hash && *stored_key == *key {
                        return Some(current);
                    }
                },
            }
            if distance >= self.max_lookups {
                proof {
                    if obeys_concrete_eq::<K>() {
                        lemma_probe_stops(
                            slots,
                            self.build_hasher.policy,
                            self.num_slots,
                            id,
                            distance as int,
                        );
                    }
                }
                return None;
            }
            distance += 1;
            current += 1;
            if current == len {
                current = 0;
            }
        }
    }

    /// The value stored under this hash code and key.
    pub fn get_with_hash(&self, hash: u64, key: &K) -> (value: Option<&V>)
        requires
            self.wf(),
        ensures
            self.len() == 0 ==> value is None,
            obeys_concrete_eq::<K>() ==> match value {
                Some(stored) => lookup(self@, hash, *key) == Some(*stored),
                None => lookup(self@, hash, *key) is None,
            },
    {
        match self.find_index(hash, key) {
            Some(i) => {
                proof {
                    if obeys_concrete_eq::<K>() {
                        lemma_entries_at(self.buckets@, i as int);
                    }
                }
                match &self.buckets[i] {
                    HashEntry::Occupied { value, .. } => Some(value),
                    HashEntry::Empty => None,
                }
            },
            None => None,
        }
    }

    /// The value stored under `key` and the hash code the table's hasher
    /// gives it.
    #[inline]
    pub fn get(&self, key: &K) -> (value: Option<&V>)
        requires
            self.wf(),
        ensures
            self.len() == 0 ==> value is None,
            obeys_concrete_eq::<K>() ==> exists|hash: u64|
                match value {
                    Some(stored) => #[trigger] lookup(self@, hash, *key) == Some(*stored),
                    None => lookup(self@, hash, *key) is None,
                },
    {
        let hash = self.hash_key(key);
        self.get_with_hash(hash, key)
    }

    /// The value stored under this hash code and key, for writing. The
    /// table after the call holds what the caller leaves in the value.
    pub fn get_mut_with_hash(&mut self, hash: u64, key: &K) -> (value: Option<&mut V>)
        requires
            old(self).wf(),
        ensures
            final(self).wf(),
            final(self).len() == old(self).len(),
            final(self).capacity() == old(self).capacity(),
            final(self).spec_slot_count() == old(self).spec_slot_count(),
            final(self).max_lookups() == old(self).max_lookups(),
            final(self).spec_hasher() == old(self).spec_hasher(),
            final(self).spec_policy() == old(self).spec_policy(),
            2 * final(self).len() <= final(self).capacity(),
            old(self).len() == 0 ==> value is None,
            value is None ==> *final(self) == *old(self),
            obeys_concrete_eq::<K>() ==> match value {
                Some(stored) => {
                    &&& lookup(old(self)@, hash, *key) == Some(*stored)
                    &&& final(self)@ == old(self)@.insert((hash, *key), *final(stored))
                },
                None => lookup(old(self)@, hash, *key) is None,
            },
    {
        match self.find_index(hash, key) {
            Some(i) => {
                let ghost slots = self.buckets@;
                match &mut self.buckets[i] {
                    HashEntry::Occupied { value, .. } => {
                        proof {
                            let entry = HashEntry::Occupied {
                                hash: slots[i as int]->hash,
                                key: slots[i as int]->key,
                                value: *final(value),
                                displacement: slots[i as int]->displacement,
                            };
                            let after = slots.update(i as int, entry);
                            lemma_same_shape(
                                slots,
                                after,
                                old(self).build_hasher.policy,
                                old(self).num_slots,
                                old(self).max_lookups as int,
                            );
                            if obeys_concrete_eq::<K>() {
                                lemma_entries_at(slots, i as int);
                                lemma_entries_update(slots, i as int, entry);
                                assert(entries(after) =~= entries(slots).insert(
                                    (hash, *key),
                                    *final(value),
                                ));
                            }
                        }
                        Some(value)
                    },
                    HashEntry::Empty => None,
                }
            },
            None => None,
        }
    }

    /// The value stored under `key` and the hash code the table's hasher
    /// gives it, for writing.
    #[inline]
    pub fn get_mut(&mut self, key: &K) -> (value: Option<&mut V>)
        requires
            old(self).wf(),
        ensures
            final(self).wf(),
            final(self).len() == old(self).len(),
            final(self).capacity() == old(self).capacity(),
            final(self).spec_slot_count() == old(self).spec_slot_count(),
            final(self).max_lookups() == old(self).max_lookups(),
            final(self).spec_hasher() == old(self).spec_hasher(),
            final(self).spec_policy() == old(self).spec_policy(),
            2 * final(self).len() <= final(self).capacity(),
            old(self).len() == 0 ==> value is None,
            value is None ==> *final(self) == *old(self),
            obeys_concrete_eq::<K>() ==> match value {
                Some(stored) => exists|hash: u64|
                    {
                        &&& #[trigger] lookup(old(self)@, hash, *key) == Some(*stored)
                        &&& final(self)@ == old(self)@.insert((hash, *key), *final(stored))
                    },
                None => exists|hash: u64| #[trigger] lookup(old(self)@, hash, *key) is None,
            },
    {
        let hash = self.hash_key(key);
        self.get_mut_with_hash(hash, key)
    }
}

} // verus!

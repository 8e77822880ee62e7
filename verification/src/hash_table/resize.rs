//! Growth: moving the pairs into a slot array of another capacity.

use crate::contents::lemma_count_all_empty;
use crate::contents::lemma_count_bounds;
use crate::contents::lemma_count_monotonic;
use crate::contents::lemma_entries_take_next;
use crate::entry::HashEntry;
use crate::hash_table::HashTable;
use crate::hash_table::MAX_LEN;
use crate::hash_table::lemma_max_lookups;
use crate::hash_table::fits;
use crate::hash_table::reported_capacity;
use crate::hash_table::spec_compute_max_lookups;
use crate::hash_table::spec_required_vec_len;
use crate::layout::displaced_by;
use crate::layout::distinct;
use crate::layout::entries;
use crate::layout::occupied_count;
use crate::policy::HashPolicy;
use crate::policy::MIN_LOOKUPS;
use crate::policy::lemma_log2_small;
use crate::policy::log2;
use std::hash::BuildHasher;
use std::hash::Hash;
use vstd::laws_eq::obeys_concrete_eq;
use vstd::prelude::*;

verus! {

impl<K, V, H, P> HashTable<K, V, H, P> where
    K: Hash + Eq,
    H: BuildHasher + Clone,
    P: HashPolicy + Default + Clone,
 {
    /// The probe bound of a table of `num_buckets` capacity.
    #[inline]
    fn compute_max_lookups(num_buckets: usize) -> (bound: usize)
        ensures
            bound == spec_compute_max_lookups(num_buckets),
    {
        if num_buckets == 0 {
            MIN_LOOKUPS - 1
        } else {
            let log2_val: usize = log2(num_buckets);
            proof {
                lemma_log2_small(num_buckets as int);
            }
            if log2_val > MIN_LOOKUPS {
                log2_val
            } else {
                MIN_LOOKUPS
            }
        }
    }

    /// The number of slots a table of this capacity and probe bound is
    /// stored in, where a `usize` can count them.
    #[inline]
    fn calculate_required_vec_len(capacity: usize, max_lookups: usize) -> (len: Option<usize>)
        requires
            max_lookups == spec_compute_max_lookups(capacity),
        ensures
            match len {
                Some(len) => len == spec_required_vec_len(capacity),
                None => spec_required_vec_len(capacity) > usize::MAX,
            },
    {
        if capacity == 0 {
            return Some(0);
        }
        if max_lookups > usize::MAX - capacity {
            None
        } else {
            Some(capacity + max_lookups)
        }
    }

    /// Moves every pair into a fresh slot array for the given capacity.
    fn rebuild(&mut self, new_capacity: usize, new_len: usize)
        requires
            old(self).wf(),
            new_len == spec_required_vec_len(new_capacity),
            fits(new_capacity, old(self).num_elements),
        ensures
            final(self).wf(),
            final(self).buckets@.len() == new_len,
            final(self).num_slots == if new_capacity == 0 {
                0
            } else {
                new_capacity - 1
            },
            final(self).build_hasher == old(self).build_hasher,
            final(self).max_lookups >= spec_compute_max_lookups(new_capacity),
            final(self).max_lookups == spec_compute_max_lookups(new_capacity) || displaced_by(
                final(self).buckets@,
                final(self).max_lookups,
            ),
            final(self).num_elements == old(self).num_elements,
            obeys_concrete_eq::<K>() ==> final(self)@ == old(self)@,
    {
        let ghost before = self.buckets@;
        let ghost total = self.num_elements;
        let mut new_buckets: Vec<HashEntry<K, V>> = Vec::with_capacity(new_len);
        let mut filled: usize = 0;
        while filled < new_len
            invariant
                filled <= new_len,
                new_buckets@.len() == filled,
                forall|j: int| 0 <= j < filled ==> #[trigger] new_buckets@[j] is Empty,
            decreases new_len - filled,
        {
            new_buckets.push(HashEntry::empty());
            filled += 1;
        }
        std::mem::swap(&mut self.buckets, &mut new_buckets);
        let mut old_buckets = new_buckets;
        self.num_slots = new_capacity.saturating_sub(1);
        self.max_lookups = Self::compute_max_lookups(new_capacity);
        self.num_elements = 0;
        proof {
            lemma_count_all_empty(self.buckets@, new_len as int);
            assert(entries(self.buckets@) =~= entries(before.take(0)));
            lemma_count_bounds(before, before.len() as int);
        }
        let old_len = old_buckets.len();
        let mut index: usize = 0;
        while index < old_len
            invariant
                self.wf(),
                self.buckets@.len() == new_len,
                self.num_slots == if new_capacity == 0 {
                    0
                } else {
                    new_capacity - 1
                },
                self.build_hasher == old(self).build_hasher,
                self.max_lookups >= spec_compute_max_lookups(new_capacity),
                self.max_lookups == spec_compute_max_lookups(new_capacity) || displaced_by(
                    self.buckets@,
                    self.max_lookups,
                ),
                index <= old_len,
                old_len == before.len(),
                old_buckets@.len() == old_len,
                forall|j: int| index <= j < old_len ==> #[trigger] old_buckets@[j] == before[j],
                self.num_elements == occupied_count(before, index as int),
                total == occupied_count(before, old_len as int),
                total <= MAX_LEN + 1,
                2 * total <= reported_capacity(new_capacity),
                new_len == spec_required_vec_len(new_capacity),
                new_len > 0 ==> total < new_len,
                obeys_concrete_eq::<K>() ==> distinct(before),
                obeys_concrete_eq::<K>() ==> entries(self.buckets@) == entries(
                    before.take(index as int),
                ),
            decreases old_len - index,
        {
            let mut entry = HashEntry::empty();
            std::mem::swap(&mut old_buckets[index], &mut entry);
            proof {
                lemma_count_monotonic(before, index as int + 1, old_len as int);
                if obeys_concrete_eq::<K>() {
                    lemma_entries_take_next(before, index as int);
                }
            }
            match entry {
                HashEntry::Occupied { hash, key, value, .. } => {
                    self.insert_during_resize(hash, key, value);
                },
                HashEntry::Empty => {},
            }
            index += 1;
        }
        proof {
            assert(before.take(old_len as int) =~= before);
        }
    }

    /// The capacity `resize` moves the pairs to: what the policy answers the
    /// hint with, where the pairs fill no more than half of that; else what
    /// the policy answers twice the number of pairs with.
    pub open spec fn resize_choice(&self, capacity_hint: usize) -> usize {
        let first = self.spec_policy().spec_new_capacity(capacity_hint);
        if 2 * self.len() <= reported_capacity(first) {
            first
        } else {
            self.spec_policy().spec_new_capacity((2 * self.len()) as usize)
        }
    }

    /// Whether `resize` with this hint leaves the table as it is: the policy
    /// answers the hint with the capacity of a table that has slots; or the
    /// capacity to move to is the one the table has, or one that the pairs
    /// do not fit.
    pub open spec fn resize_keeps_slots(&self, capacity_hint: usize) -> bool {
        let first = self.spec_policy().spec_new_capacity(capacity_hint);
        let chosen = self.resize_choice(capacity_hint);
        ||| first == self.capacity() && self.spec_slot_count() > 0
        ||| chosen == self.capacity() && self.spec_slot_count() > 0
        ||| !fits(chosen, self.len())
    }

    /// Asks the policy for a capacity for `capacity_hint` slots and moves the
    /// pairs into a slot array of that capacity. Nothing happens where the
    /// policy answers with the capacity the table has. Where the pairs would
    /// fill more than half of the capacity it answers with, the policy is
    /// asked for twice the number of pairs instead, and nothing happens where
    /// that answer is the capacity the table has, or again too little.
    ///
    /// The table then has the probe bound computed from the new capacity,
    /// unless a pair had to be placed further from its desired index than
    /// that: the bound is then the largest displacement of a pair.
    #[inline]
    pub fn resize(&mut self, capacity_hint: usize)
        requires
            old(self).wf(),
        ensures
            final(self).wf(),
            obeys_concrete_eq::<K>() ==> final(self)@ == old(self)@,
            final(self).len() == old(self).len(),
            final(self).spec_hasher() == old(self).spec_hasher(),
            final(self).spec_policy() == old(self).spec_policy(),
            2 * final(self).len() <= final(self).capacity(),
            old(self).spec_policy().spec_new_capacity(capacity_hint) == old(self).capacity() && old(
                self,
            ).spec_slot_count() > 0 ==> *final(self) == *old(self),
            old(self).resize_keeps_slots(capacity_hint) ==> *final(self) == *old(self),
            !old(self).resize_keeps_slots(capacity_hint) ==> {
                let chosen = old(self).resize_choice(capacity_hint);
                &&& final(self).capacity() == reported_capacity(chosen)
                &&& final(self).spec_slot_count() == spec_required_vec_len(chosen)
                &&& final(self).max_lookups() >= spec_compute_max_lookups(chosen)
                &&& final(self).max_lookups() == spec_compute_max_lookups(chosen)
                    || final(self).probe_bound_reached()
            },
    {
        let first = self.build_hasher.policy.new_capacity(capacity_hint);
        if first == self.capacity() && self.buckets.len() > 0 {
            return;
        }
        let twice_len = 2 * self.num_elements;
        let new_capacity = if twice_len <= Self::reported(first) {
            first
        } else {
            self.build_hasher.policy.new_capacity(twice_len)
        };
        if new_capacity == self.capacity() && self.buckets.len() > 0 {
            return;
        }
        if twice_len > Self::reported(new_capacity) {
            return;
        }
        let new_max_lookups = Self::compute_max_lookups(new_capacity);
        match Self::calculate_required_vec_len(new_capacity, new_max_lookups) {
            Some(required_vec_size) => {
                self.rebuild(new_capacity, required_vec_size);
            },
            None => {},
        }
    }

    /// The capacity a table of capacity `chosen` reports.
    #[inline]
    fn reported(chosen: usize) -> (capacity: usize)
        ensures
            capacity == reported_capacity(chosen),
    {
        if chosen <= 1 {
            0
        } else {
            chosen
        }
    }

    /// Grows the table where `additional` more pairs would fill more than
    /// half of its capacity: it asks the policy for twice the number of pairs
    /// it is to hold, and at least `MIN_LOOKUPS`; where the policy gives less
    /// than twice that number of pairs, the table takes the capacity it asked
    /// for.
    #[inline]
    pub(super) fn reserve(&mut self, additional: usize)
        requires
            old(self).wf(),
            old(self).num_elements + additional <= MAX_LEN + 1,
        ensures
            final(self).wf(),
            obeys_concrete_eq::<K>() ==> final(self)@ == old(self)@,
            final(self).num_elements == old(self).num_elements,
            final(self).build_hasher == old(self).build_hasher,
            2 * (old(self).num_elements + additional) <= final(self).capacity(),
            final(self).capacity() >= old(self).capacity(),
            *final(self) == *old(self) || final(self).max_lookups == MIN_LOOKUPS || displaced_by(
                final(self).buckets@,
                final(self).max_lookups,
            ),
            additional > 0 ==> old(self).num_elements + additional < final(self).buckets@.len(),
            2 * (old(self).num_elements + additional) <= old(self).capacity() ==> *final(self)
                == *old(self),
    {
        let new_num_elements = self.num_elements + additional;
        let new_num_buckets = 2 * new_num_elements;
        if new_num_buckets > self.capacity() {
            let new_capacity_hint = if new_num_buckets > MIN_LOOKUPS {
                new_num_buckets
            } else {
                MIN_LOOKUPS
            };
            self.resize(new_capacity_hint);
            if new_num_buckets > self.capacity() {
                let max_lookups = Self::compute_max_lookups(new_capacity_hint);
                proof {
                    lemma_log2_small(new_capacity_hint as int);
                }
                self.rebuild(new_capacity_hint, new_capacity_hint + max_lookups);
            }
        }
        proof {
            self.lemma_storage();
            lemma_max_lookups((self.num_slots + 1) as usize);
        }
    }

    /// The capacity that `grow` moves the pairs to: what the policy answers
    /// when asked for one slot more than the table has, where that is more
    /// than the table has and a `usize` can count its slots. `None` where the
    /// policy has no such capacity to give.
    pub open spec fn grown_capacity(&self) -> Option<usize> {
        if self.spec_num_slots() >= usize::MAX - 1 {
            None
        } else {
            let chosen = self.spec_policy().spec_new_capacity((self.spec_num_slots() + 2) as usize);
            if chosen > self.spec_num_slots() + 1 && spec_required_vec_len(chosen) <= usize::MAX {
                Some(chosen)
            } else {
                None
            }
        }
    }

    /// Asks the policy for a capacity above the one the table has, and moves
    /// the pairs there. Returns whether it did: it does not where the policy
    /// does not answer with more.
    pub(super) fn grow(&mut self) -> (grown: bool)
        requires
            old(self).wf(),
            old(self).num_elements + 1 < old(self).buckets@.len(),
        ensures
            final(self).wf(),
            obeys_concrete_eq::<K>() ==> final(self)@ == old(self)@,
            final(self).num_elements == old(self).num_elements,
            final(self).build_hasher == old(self).build_hasher,
            final(self).num_elements + 1 < final(self).buckets@.len(),
            grown == (old(self).grown_capacity() is Some),
            match old(self).grown_capacity() {
                Some(chosen) => {
                    &&& final(self).num_slots == chosen - 1
                    &&& final(self).num_slots > old(self).num_slots
                    &&& final(self).buckets@.len() == spec_required_vec_len(chosen)
                    &&& final(self).max_lookups >= spec_compute_max_lookups(chosen)
                    &&& final(self).max_lookups == MIN_LOOKUPS || displaced_by(
                        final(self).buckets@,
                        final(self).max_lookups,
                    )
                },
                None => *final(self) == *old(self),
            },
            final(self).capacity() >= old(self).capacity(),
    {
        if self.num_slots >= usize::MAX - 1 {
            return false;
        }
        let new_capacity = self.build_hasher.policy.new_capacity(self.num_slots + 2);
        if new_capacity <= self.num_slots + 1 {
            return false;
        }
        let new_max_lookups = Self::compute_max_lookups(new_capacity);
        match Self::calculate_required_vec_len(new_capacity, new_max_lookups) {
            Some(required_vec_size) => {
                proof {
                    lemma_max_lookups(new_capacity);
                }
                self.rebuild(new_capacity, required_vec_size);
                true
            },
            None => false,
        }
    }
}

} // verus!

//! Cloning a table.

use crate::contents::lemma_count_monotonic;
use crate::contents::lemma_entries_take_next;
use crate::entry::HashEntry;
use crate::hash_table::HashTable;
use crate::hash_table::MAX_LEN;
use crate::layout::entries;
use crate::layout::occupied_count;
use crate::policy::HashPolicy;
use std::hash::BuildHasher;
use std::hash::Hash;
use vstd::laws_eq::obeys_concrete_eq;
use vstd::pervasive::strictly_cloned;
use vstd::prelude::*;

verus! {

/// Whether a clone of a key is the key.
pub open spec fn clone_is_exact<K: Clone>() -> bool {
    forall|key: K, copy: K| #[trigger] strictly_cloned(key, copy) ==> key == copy
}

impl<K, V, H, P> Clone for HashTable<K, V, H, P> where
    K: Hash + Eq + Clone,
    V: Clone,
    H: BuildHasher + Clone,
    P: HashPolicy + Default + Clone,
 {
    /// A table of its own that holds a clone of every pair, under the hash
    /// code the pair is stored with. The pairs are placed one by one into
    /// fresh storage, with clones of the hasher and of the policy.
    fn clone(&self) -> (copy: Self)
        ensures
            copy.wf(),
            2 * copy.len() <= copy.capacity(),
            cloned(self.spec_hasher(), copy.spec_hasher()),
            cloned(self.spec_policy(), copy.spec_policy()),
            self.wf() && obeys_concrete_eq::<K>() && clone_is_exact::<K>() ==> {
                &&& copy.len() == self.len()
                &&& copy@.dom() == self@.dom()
                &&& forall|id: (u64, K)| #[trigger]
                    copy@.contains_key(id) ==> cloned(self@[id], copy@[id])
            },
    {
        let mut new_table = Self::with_capacity_and_hasher_and_policy(
            self.capacity(),
            self.build_hasher.build_hasher.clone(),
            self.build_hasher.policy.clone(),
        );
        let ghost slots = self.buckets@;
        let len = self.buckets.len();
        let mut index: usize = 0;
        proof {
            assert(entries(slots.take(0)) =~= Map::<(u64, K), V>::empty());
        }
        while index < len
            invariant
                new_table.wf(),
                slots == self.buckets@,
                len == slots.len(),
                index <= len,
                cloned(self.spec_hasher(), new_table.spec_hasher()),
                cloned(self.spec_policy(), new_table.spec_policy()),
                self.wf() && obeys_concrete_eq::<K>() && clone_is_exact::<K>() ==> {
                    &&& new_table.len() == occupied_count(slots, index as int)
                    &&& new_table@.dom() == entries(slots.take(index as int)).dom()
                    &&& forall|id: (u64, K)| #[trigger]
                        new_table@.contains_key(id) ==> cloned(
                            entries(slots.take(index as int))[id],
                            new_table@[id],
                        )
                },
            decreases len - index,
        {
            proof {
                if self.wf() && obeys_concrete_eq::<K>() {
                    lemma_count_monotonic(slots, index as int + 1, len as int);
                    lemma_entries_take_next(slots, index as int);
                }
            }
            match &self.buckets[index] {
                HashEntry::Occupied { hash, key, value, .. } => {
                    if new_table.len() <= MAX_LEN {
                        let ghost before = new_table@;
                        let key_copy = key.clone();
                        let value_copy = value.clone();
                        new_table.insert_with_hash(*hash, key_copy, value_copy);
                        proof {
                            if self.wf() && obeys_concrete_eq::<K>() && clone_is_exact::<K>() {
                                assert(strictly_cloned(*key, key_copy));
                                assert(key_copy == *key);
                                assert(new_table@.dom() =~= entries(
                                    slots.take(index as int + 1),
                                ).dom());
                            }
                        }
                    }
                },
                HashEntry::Empty => {},
            }
            index += 1;
        }
        proof {
            assert(slots.take(len as int) =~= slots);
        }
        new_table
    }
}

} // verus!

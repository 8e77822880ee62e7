//! What the invariant of a table says of its slots, in terms a caller can
//! read.

use crate::contents::lemma_count_bounds;
use crate::contents::lemma_entries_at;
use crate::contents::lemma_entries_witness;
use crate::hash_table::HashTable;
use crate::hash_table::MAX_LEN;
use crate::hash_table::lemma_max_lookups;
use crate::iter::lemma_pair_of_slot;
use crate::iter::lemma_pairs_len;
use crate::iter::lemma_slot_of;
use crate::iter::lemma_slot_of_increasing;
use crate::iter::slot_of;
use crate::layout::holds;
use crate::layout::ring_add;
use crate::layout::ring_prev;
use crate::layout::shape;
use crate::layout::slot_ordered;
use crate::ordering::lemma_probe_chain;
use crate::policy::HashPolicy;
use crate::policy::MIN_LOOKUPS;
use std::hash::BuildHasher;
use std::hash::Hash;
use vstd::laws_eq::obeys_concrete_eq;
use vstd::prelude::*;

verus! {

impl<K, V, H, P> HashTable<K, V, H, P> where
    K: Hash + Eq,
    H: BuildHasher + Clone,
    P: HashPolicy + Default + Clone,
 {
    /// The hash code and the displacement of the pair in slot `i`; `None` for
    /// an empty slot.
    pub closed spec fn spec_slot(&self, i: int) -> Option<(u64, usize)> {
        shape(self.buckets@[i])
    }

    /// The identity of the pair in slot `i`; `None` for an empty slot.
    pub closed spec fn spec_slot_id(&self, i: int) -> Option<(u64, K)> {
        self.buckets@[i].spec_id()
    }

    /// The storage of a table: the pairs fill no more than half of the
    /// capacity; and there is no storage at all, with no capacity and no
    /// pair, or the slots of the capacity and `MIN_LOOKUPS` spare ones, with
    /// a probe bound of at least `MIN_LOOKUPS` that stays below the number of
    /// slots.
    pub proof fn lemma_storage(&self)
        requires
            self.wf(),
        ensures
            self.capacity() == if self.spec_num_slots() == 0 {
                0
            } else {
                self.spec_num_slots() + 1
            },
            self.len() <= MAX_LEN + 1,
            2 * self.len() <= self.capacity(),
            self.spec_slot_count() == 0 ==> {
                &&& self.spec_num_slots() == 0
                &&& self.len() == 0
                &&& self.max_lookups() >= MIN_LOOKUPS - 1
            },
            self.spec_slot_count() > 0 ==> {
                &&& self.spec_slot_count() == self.spec_num_slots() + 1 + MIN_LOOKUPS
                &&& self.len() < self.spec_slot_count()
                &&& MIN_LOOKUPS <= self.max_lookups() < self.spec_slot_count()
            },
    {
        lemma_max_lookups((self.num_slots + 1) as usize);
        lemma_count_bounds(self.buckets@, self.buckets@.len() as int);
    }

    /// The probe bound is reached where the pair of some slot is displaced by
    /// the bound itself.
    pub proof fn lemma_probe_bound_reached(&self)
        ensures
            self.probe_bound_reached() == exists|i: int|
                0 <= i < self.spec_slot_count() && #[trigger] self.spec_slot(i) is Some
                    && self.spec_slot(i).unwrap().1 == self.max_lookups(),
    {
        let slots = self.buckets@;
        if self.probe_bound_reached() {
            let w = choose|w: int|
                0 <= w < slots.len() && #[trigger] slots[w].spec_displacement() == Some(
                    self.max_lookups,
                );
            assert(self.spec_slot(w) is Some && self.spec_slot(w).unwrap().1 == self.max_lookups());
        }
        if exists|i: int|
            0 <= i < self.spec_slot_count() && #[trigger] self.spec_slot(i) is Some
                && self.spec_slot(i).unwrap().1 == self.max_lookups() {
            let w = choose|i: int|
                0 <= i < self.spec_slot_count() && #[trigger] self.spec_slot(i) is Some
                    && self.spec_slot(i).unwrap().1 == self.max_lookups();
            assert(slots[w].spec_displacement() == Some(self.max_lookups));
        }
    }

    /// The Robin Hood order of a table: the pair in slot `i` lies its
    /// displacement past the desired index of its hash code, within the probe
    /// bound, and each earlier step of the probe sequence that leads to it
    /// finds a pair displaced at least as far as the step. So a probe for the
    /// pair never meets an empty slot, nor a pair displaced less than the
    /// distance travelled, before it reaches the pair.
    pub proof fn lemma_probe_order(&self, i: int, step: int)
        requires
            self.wf(),
            0 <= i < self.spec_slot_count(),
            self.spec_slot(i) is Some,
            0 <= step <= self.spec_slot(i).unwrap().1,
        ensures
            ({
                let len = self.spec_slot_count() as int;
                let (hash, displacement) = self.spec_slot(i).unwrap();
                let home = self.spec_desired_index(hash);
                let at = ring_add(home, step as int, len);
                &&& displacement <= self.max_lookups()
                &&& displacement < len
                &&& 0 <= home < len
                &&& ring_add(home, displacement as int, len) == i
                &&& 0 <= at < len
                &&& self.spec_slot(at) matches Some(found) && found.1 >= step
            }),
    {
        let slots = self.buckets@;
        assert(slot_ordered(slots, self.build_hasher.policy, self.num_slots, i));
        assert(slots[i].spec_displacement() is Some);
        lemma_probe_chain(slots, self.build_hasher.policy, self.num_slots, i, step);
    }

    /// Neighbouring slots in Robin Hood order: a displaced pair follows a
    /// pair that is displaced at most one step less.
    pub proof fn lemma_neighbour_order(&self, i: int)
        requires
            self.wf(),
            0 <= i < self.spec_slot_count(),
            self.spec_slot(i) matches Some(slot) && slot.1 > 0,
        ensures
            self.spec_slot(ring_prev(i, self.spec_slot_count() as int)) matches Some(before)
                && before.1 + 1 >= self.spec_slot(i).unwrap().1,
    {
        assert(slot_ordered(self.buckets@, self.build_hasher.policy, self.num_slots, i));
    }

    /// The slots and the entries: every occupied slot holds an entry, no two
    /// slots hold the same one, and every entry is held by a slot.
    pub proof fn lemma_slots_hold_entries(&self)
        requires
            self.wf(),
            obeys_concrete_eq::<K>(),
        ensures
            forall|i: int|
                0 <= i < self.spec_slot_count() && self.spec_slot(i) is Some ==> (
                #[trigger] self.spec_slot_id(i)) is Some && self@.contains_key(
                    self.spec_slot_id(i).unwrap(),
                ) && self.spec_slot_id(i).unwrap().0 == self.spec_slot(i).unwrap().0,
            forall|i: int, j: int|
                0 <= i < j < self.spec_slot_count() && self.spec_slot(i) is Some ==> (
                #[trigger] self.spec_slot_id(i)) != (#[trigger] self.spec_slot_id(j)),
            forall|id: (u64, K)| #[trigger]
                self@.contains_key(id) ==> exists|i: int|
                    0 <= i < self.spec_slot_count() && #[trigger] self.spec_slot_id(i) == Some(id),
    {
        let slots = self.buckets@;
        assert forall|i: int|
            0 <= i < self.spec_slot_count() && self.spec_slot(i) is Some implies (
        #[trigger] self.spec_slot_id(i)) is Some && self@.contains_key(
            self.spec_slot_id(i).unwrap(),
        ) && self.spec_slot_id(i).unwrap().0 == self.spec_slot(i).unwrap().0 by {
            lemma_entries_at(slots, i);
        }
        assert forall|i: int, j: int|
            0 <= i < j < self.spec_slot_count() && self.spec_slot(i) is Some implies (
        #[trigger] self.spec_slot_id(i)) != (#[trigger] self.spec_slot_id(j)) by {
            let id = slots[i].spec_id().unwrap();
            assert(holds(slots, i, id));
            if slots[j].spec_id() == Some(id) {
                assert(holds(slots, j, id));
            }
        }
        assert forall|id: (u64, K)| #[trigger] self@.contains_key(id) implies exists|i: int|
            0 <= i < self.spec_slot_count() && #[trigger] self.spec_slot_id(i) == Some(id) by {
            let w = lemma_entries_witness(slots, id);
            assert(self.spec_slot_id(w) == Some(id));
        }
    }

    /// The pairs in slot order are the entries of the table, each once: there
    /// are `len()` of them, each is an entry with its value, no identity comes
    /// twice, and every entry is among them.
    pub proof fn lemma_pairs_are_entries(&self)
        requires
            self.wf(),
            obeys_concrete_eq::<K>(),
        ensures
            self.spec_pairs().len() == self.len(),
            forall|at: int|
                0 <= at < self.spec_pairs().len() ==> self@.contains_key(
                    (#[trigger] self.spec_pairs()[at]).0,
                ) && self@[self.spec_pairs()[at].0] == self.spec_pairs()[at].1,
            forall|a: int, b: int|
                0 <= a < b < self.spec_pairs().len() ==> (#[trigger] self.spec_pairs()[a]).0 != (
                #[trigger] self.spec_pairs()[b]).0,
            forall|id: (u64, K)| #[trigger]
                self@.contains_key(id) ==> exists|at: int|
                    0 <= at < self.spec_pairs().len() && #[trigger] self.spec_pairs()[at] == (
                        id,
                        self@[id],
                    ),
    {
        let slots = self.buckets@;
        let pairs = self.spec_pairs();
        lemma_pairs_len(slots, 0);
        assert forall|at: int| 0 <= at < pairs.len() implies self@.contains_key(
            (#[trigger] pairs[at]).0,
        ) && self@[pairs[at].0] == pairs[at].1 by {
            lemma_slot_of(slots, 0, at);
            lemma_entries_at(slots, slot_of(slots, 0, at));
        }
        assert forall|a: int, b: int| 0 <= a < b < pairs.len() implies (#[trigger] pairs[a]).0 != (
        #[trigger] pairs[b]).0 by {
            lemma_slot_of(slots, 0, a);
            lemma_slot_of(slots, 0, b);
            lemma_slot_of_increasing(slots, 0, a, b);
        }
        assert forall|id: (u64, K)| #[trigger] self@.contains_key(id) implies exists|at: int|
            0 <= at < pairs.len() && #[trigger] pairs[at] == (id, self@[id]) by {
            let w = lemma_entries_witness(slots, id);
            lemma_entries_at(slots, w);
            let at = lemma_pair_of_slot(slots, 0, w);
            assert(pairs[at] == (id, self@[id]));
        }
    }

    /// Two tables with the same entries yield the same pairs, each once and
    /// equally many, in whatever order: so the cursor of a table after an
    /// operation that keeps the entries, such as `resize`, yields what the
    /// cursor of the table before it yielded.
    pub proof fn lemma_equal_entries_equal_pairs(&self, other: &Self)
        requires
            self.wf(),
            other.wf(),
            obeys_concrete_eq::<K>(),
            self@ == other@,
        ensures
            self.len() == other.len(),
            self.spec_pairs().len() == other.spec_pairs().len(),
            self.spec_pairs().to_set() == other.spec_pairs().to_set(),
            self.spec_pairs().no_duplicates(),
    {
        self.lemma_pairs_are_entries();
        other.lemma_pairs_are_entries();
        self.lemma_len_counts_entries();
        other.lemma_len_counts_entries();
        let mine = self.spec_pairs();
        let theirs = other.spec_pairs();
        assert forall|pair: ((u64, K), V)| mine.to_set().contains(pair) implies theirs.to_set().contains(
            pair,
        ) by {
            let at = choose|at: int| 0 <= at < mine.len() && mine[at] == pair;
            assert(self@.contains_key(mine[at].0));
            assert(other@.contains_key(pair.0));
        }
        assert forall|pair: ((u64, K), V)| theirs.to_set().contains(pair) implies mine.to_set().contains(
            pair,
        ) by {
            let at = choose|at: int| 0 <= at < theirs.len() && theirs[at] == pair;
            assert(other@.contains_key(theirs[at].0));
            assert(self@.contains_key(pair.0));
        }
        assert(mine.to_set() =~= theirs.to_set());
        assert forall|a: int, b: int| 0 <= a < mine.len() && 0 <= b < mine.len() && a != b implies mine[a]
            != mine[b] by {
            if a < b {
                assert(mine[a].0 != mine[b].0);
            } else {
                assert(mine[b].0 != mine[a].0);
            }
        }
    }

    /// The table holds finitely many entries, and `len()` is their number.
    pub proof fn lemma_len_counts_entries(&self)
        requires
            self.wf(),
            obeys_concrete_eq::<K>(),
        ensures
            self@.dom().finite(),
            self@.len() == self.len(),
    {
        self.lemma_pairs_are_entries();
        let pairs = self.spec_pairs();
        let ids = Seq::new(pairs.len(), |at: int| pairs[at].0);
        assert(ids.no_duplicates());
        assert forall|id: (u64, K)| ids.to_set().contains(id) implies self@.dom().contains(id) by {
            let at = choose|at: int| 0 <= at < ids.len() && ids[at] == id;
            assert(pairs[at].0 == id);
        }
        assert forall|id: (u64, K)| self@.dom().contains(id) implies ids.to_set().contains(id) by {
            assert(self@.contains_key(id));
            let at = choose|at: int| 0 <= at < pairs.len() && pairs[at] == (id, self@[id]);
            assert(ids[at] == id);
        }
        assert(ids.to_set() =~= self@.dom());
        ids.unique_seq_to_set();
        vstd::seq_lib::seq_to_set_is_finite(ids);
    }
}

} // verus!

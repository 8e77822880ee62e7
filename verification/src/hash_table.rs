//! The table: its representation, its invariant and view, its constructors
//! and its accessors. The operations are in the modules below.

use crate::entry::HashEntry;
use crate::iter::Iter;
use crate::iter::pairs_from;
use crate::layout::displaced_by;
use crate::layout::distinct;
use crate::layout::entries;
use crate::layout::occupied_count;
use crate::layout::ordered;
use crate::layout::within_bound;
use crate::policy::HashPolicy;
use crate::policy::MIN_LOOKUPS;
use crate::policy::PowerOf2HashPolicy;
use crate::policy::SelectHashPolicy;
use crate::policy::lemma_log2_of_usize;
use crate::policy::spec_log2;
use std::collections::hash_map::RandomState;
use std::hash::BuildHasher;
use std::hash::Hash;
use vstd::laws_eq::obeys_concrete_eq;
use vstd::prelude::*;

mod copy;
mod insert;
mod guarantees;
mod lookup;
mod remove;
mod resize;

pub use copy::clone_is_exact;

verus! {

/// A hasher factory together with the index policy it is used with.
#[derive(Debug, Default)]
pub struct BuildHasherWrapper<H, P = <H as SelectHashPolicy>::Policy> where
    H: BuildHasher + Clone,
    P: HashPolicy + Default + Clone,
 {
    pub(crate) build_hasher: H,
    pub(crate) policy: P,
}

impl<H, P> BuildHasherWrapper<H, P> where H: BuildHasher + Clone, P: HashPolicy + Default + Clone {
    /// The hasher factory held.
    pub closed spec fn spec_hasher(&self) -> H {
        self.build_hasher
    }

    /// The index policy held.
    pub closed spec fn spec_policy(&self) -> P {
        self.policy
    }

    /// Pairs a hasher factory with an index policy.
    pub fn new(build_hasher: H, policy: P) -> (wrapper: Self)
        ensures
            wrapper.spec_hasher() == build_hasher,
            wrapper.spec_policy() == policy,
    {
        Self { build_hasher, policy }
    }
}

impl<H, P> Clone for BuildHasherWrapper<H, P> where
    H: BuildHasher + Clone,
    P: HashPolicy + Default + Clone,
 {
    /// A wrapper around clones of the hasher factory and of the policy.
    fn clone(&self) -> (copy: Self)
        ensures
            cloned(self.spec_hasher(), copy.spec_hasher()),
            cloned(self.spec_policy(), copy.spec_policy()),
    {
        Self { build_hasher: self.build_hasher.clone(), policy: self.policy.clone() }
    }
}

impl<H, P> BuildHasher for BuildHasherWrapper<H, P> where
    H: BuildHasher + Clone,
    P: HashPolicy + Default + Clone,
 {
    type Hasher = H::Hasher;

    /// Hands out a hasher of the wrapped factory (`BuildHasher::build_hasher`
    /// of std). Nothing is claimed of the hasher.
    #[verifier::external_body]
    #[inline]
    fn build_hasher(&self) -> Self::Hasher {
        self.build_hasher.build_hasher()
    }
}

/// The hash code of `key` under `build_hasher` (`BuildHasher::hash_one` of
/// std). Nothing is claimed of the code: to the table, two calls on one key
/// may differ.
#[verifier::external_body]
#[inline]
fn hash_one<H: BuildHasher, K: Hash>(build_hasher: &H, key: &K) -> (hash: u64) {
    build_hasher.hash_one(key)
}

/// The probe bound of a table of the given capacity: `MIN_LOOKUPS - 1` while
/// there is no storage, else the base-two logarithm of the capacity, and at
/// least `MIN_LOOKUPS`.
pub open spec fn spec_compute_max_lookups(capacity: usize) -> usize {
    if capacity == 0 {
        (MIN_LOOKUPS - 1) as usize
    } else if spec_log2(capacity as int) > MIN_LOOKUPS {
        spec_log2(capacity as int) as usize
    } else {
        MIN_LOOKUPS
    }
}

/// A table with capacity has the probe bound `MIN_LOOKUPS`: the logarithm of
/// a `usize` is less.
pub proof fn lemma_max_lookups(capacity: usize)
    ensures
        capacity > 0 ==> spec_compute_max_lookups(capacity) == MIN_LOOKUPS,
        capacity > 0 ==> spec_required_vec_len(capacity) == capacity + MIN_LOOKUPS,
{
    lemma_log2_of_usize(capacity);
}

/// The number of slots a table of the given capacity is stored in: the
/// capacity and one spare slot for each step of the probe bound.
pub open spec fn spec_required_vec_len(capacity: usize) -> int {
    if capacity == 0 {
        0
    } else {
        capacity + spec_compute_max_lookups(capacity)
    }
}

/// Whether a table of `len` pairs can be rebuilt at `capacity`: the pairs
/// must fill no more than half of the capacity the table will report, and
/// the slots must be countable in a `usize`.
pub open spec fn fits(capacity: usize, len: usize) -> bool {
    &&& 2 * len <= reported_capacity(capacity)
    &&& spec_required_vec_len(capacity) <= usize::MAX
}

/// The capacity a table reports when its policy chose `chosen`: a capacity
/// of one is reported as none.
pub open spec fn reported_capacity(chosen: usize) -> usize {
    if chosen <= 1 {
        0
    } else {
        chosen
    }
}

/// The largest number of pairs at which a table accepts another pair.
pub const MAX_LEN: usize = usize::MAX / 4 - 1;

/// An open-addressing hash table with Robin Hood displacement.
///
/// The view of a table is the map from the identity of each stored pair, its
/// hash code and its key, to the pair's value.
#[derive(Debug)]
pub struct HashTable<K, V, H = RandomState, P = PowerOf2HashPolicy> where
    K: Hash + Eq,
    H: BuildHasher + Clone,
    P: HashPolicy + Default + Clone,
 {
    build_hasher: BuildHasherWrapper<H, P>,
    buckets: Vec<HashEntry<K, V>>,
    num_slots: usize,
    num_elements: usize,
    max_lookups: usize,
}

impl<K, V, H, P> View for HashTable<K, V, H, P> where
    K: Hash + Eq,
    H: BuildHasher + Clone,
    P: HashPolicy + Default + Clone,
 {
    type V = Map<(u64, K), V>;

    /// The entries of the table: from the identity of each stored pair, its
    /// hash code and its key, to the value of the pair.
    closed spec fn view(&self) -> Map<(u64, K), V> {
        entries(self.buckets@)
    }
}

impl<K, V, H, P> Default for HashTable<K, V, H, P> where
    K: Hash + Eq,
    H: BuildHasher + Default + Clone,
    P: HashPolicy + Default + Clone,
 {
    /// An empty table without slots, with the default hasher and policy.
    fn default() -> (table: Self)
        ensures
            table.wf(),
            table@ == Map::<(u64, K), V>::empty(),
            table.len() == 0,
            table.capacity() == 0,
            call_ensures(H::default, (), table.spec_hasher()),
            call_ensures(P::default, (), table.spec_policy()),
    {
        Self::new()
    }
}

impl<K, V, H, P> HashTable<K, V, H, P> where
    K: Hash + Eq,
    H: BuildHasher + Default + Clone,
    P: HashPolicy + Default + Clone,
 {
    /// An empty table without slots, with the default hasher and policy.
    pub fn new() -> (table: Self)
        ensures
            table.wf(),
            table@ == Map::<(u64, K), V>::empty(),
            table.len() == 0,
            table.capacity() == 0,
            call_ensures(H::default, (), table.spec_hasher()),
            call_ensures(P::default, (), table.spec_policy()),
    {
        Self::with_hasher(H::default())
    }

    /// An empty table without slots, with the default hasher and policy
    /// and with memory reserved for `capacity` slots.
    pub fn with_capacity(capacity: usize) -> (table: Self)
        ensures
            table.wf(),
            table@ == Map::<(u64, K), V>::empty(),
            table.len() == 0,
            table.capacity() == 0,
            call_ensures(H::default, (), table.spec_hasher()),
            call_ensures(P::default, (), table.spec_policy()),
    {
        Self::with_capacity_and_hasher(capacity, H::default())
    }
}

impl<K, V, H, P> HashTable<K, V, H, P> where
    K: Hash + Eq,
    H: BuildHasher + Clone,
    P: HashPolicy + Default + Clone,
 {
    /// The table's invariant: every slot is in Robin Hood order within the
    /// probe bound, the element count is the number of occupied slots, the
    /// pairs fill no more than half of the capacity, the storage has the
    /// slots of its capacity, and, where `==` on keys is equality, no two
    /// slots hold the same hash code and key.
    pub closed spec fn wf(&self) -> bool {
        let slots = self.buckets@;
        &&& ordered(slots, self.build_hasher.policy, self.num_slots)
        &&& within_bound(slots, self.max_lookups as int)
        &&& self.num_elements == occupied_count(slots, slots.len() as int)
        &&& self.num_slots < usize::MAX
        &&& self.num_elements <= MAX_LEN + 1
        &&& 2 * self.num_elements <= self.spec_capacity()
        &&& if slots.len() == 0 {
            &&& self.num_slots == 0
            &&& self.max_lookups >= spec_compute_max_lookups(0)
        } else {
            &&& slots.len() == spec_required_vec_len((self.num_slots + 1) as usize)
            &&& self.max_lookups >= spec_compute_max_lookups((self.num_slots + 1) as usize)
            &&& self.max_lookups < slots.len()
            &&& self.num_elements < slots.len()
        }
        &&& obeys_concrete_eq::<K>() ==> distinct(slots)
    }

    /// The number of stored pairs.
    pub closed spec fn spec_len(&self) -> usize {
        self.num_elements
    }

    /// The capacity the table reports.
    pub closed spec fn spec_capacity(&self) -> usize {
        if self.num_slots == 0 {
            0
        } else if self.num_slots + 1 > usize::MAX {
            usize::MAX
        } else {
            (self.num_slots + 1) as usize
        }
    }

    /// The number of slots in the table's storage.
    pub closed spec fn spec_slot_count(&self) -> nat {
        self.buckets@.len()
    }

    /// The current probe bound.
    pub closed spec fn spec_max_lookups(&self) -> usize {
        self.max_lookups
    }

    /// Whether some pair lies as far from its desired index as the probe
    /// bound allows.
    pub closed spec fn probe_bound_reached(&self) -> bool {
        displaced_by(self.buckets@, self.max_lookups)
    }

    /// The number the table hands to the policy with each hash code: its
    /// capacity less one, and zero for a table without capacity.
    pub closed spec fn spec_num_slots(&self) -> usize {
        self.num_slots
    }

    /// The hasher factory the table was made with.
    pub closed spec fn spec_hasher(&self) -> H {
        self.build_hasher.build_hasher
    }

    /// The index policy the table was made with.
    pub closed spec fn spec_policy(&self) -> P {
        self.build_hasher.policy
    }

    /// An empty table without slots, with this hasher and the default
    /// policy.
    #[inline]
    pub fn with_hasher(build_hasher: H) -> (table: Self)
        ensures
            table.wf(),
            table@ == Map::<(u64, K), V>::empty(),
            table.len() == 0,
            table.capacity() == 0,
            table.spec_hasher() == build_hasher,
            call_ensures(P::default, (), table.spec_policy()),
    {
        Self::with_hasher_and_policy(build_hasher, P::default())
    }

    /// An empty table without slots, with this hasher and this policy.
    #[inline]
    pub fn with_hasher_and_policy(build_hasher: H, policy: P) -> (table: Self)
        ensures
            table.wf(),
            table@ == Map::<(u64, K), V>::empty(),
            table.len() == 0,
            table.capacity() == 0,
            table.spec_hasher() == build_hasher,
            table.spec_policy() == policy,
    {
        Self::with_capacity_and_hasher_and_policy(0usize, build_hasher, policy)
    }

    /// An empty table without slots, with this hasher and the default
    /// policy, and with memory reserved for `capacity` slots.
    #[inline]
    pub fn with_capacity_and_hasher(capacity: usize, build_hasher: H) -> (table: Self)
        ensures
            table.wf(),
            table@ == Map::<(u64, K), V>::empty(),
            table.len() == 0,
            table.capacity() == 0,
            table.spec_hasher() == build_hasher,
            call_ensures(P::default, (), table.spec_policy()),
    {
        Self::with_capacity_and_hasher_and_policy(capacity, build_hasher, P::default())
    }

    /// A table without slots. The capacity hint reserves memory for the slot
    /// array and changes nothing else: the table reports no capacity until
    /// the first insertion or resize.
    #[inline]
    pub fn with_capacity_and_hasher_and_policy(
        capacity: usize,
        build_hasher: H,
        policy: P,
    ) -> (table: Self)
        ensures
            table.wf(),
            table@ == Map::<(u64, K), V>::empty(),
            table.len() == 0,
            table.capacity() == 0,
            table.spec_slot_count() == 0,
            table.max_lookups() == MIN_LOOKUPS - 1,
            table.spec_hasher() == build_hasher,
            table.spec_policy() == policy,
    {
        let table = Self {
            build_hasher: BuildHasherWrapper::new(build_hasher, policy),
            buckets: Vec::with_capacity(capacity),
            num_slots: 0,
            num_elements: 0,
            max_lookups: MIN_LOOKUPS - 1,
        };
        assert(table@ =~= Map::<(u64, K), V>::empty());
        table
    }

    /// The number of stored pairs.
    #[inline]
    #[verifier::when_used_as_spec(spec_len)]
    pub fn len(&self) -> (count: usize)
        ensures
            count == self.spec_len(),
    {
        self.num_elements
    }

    /// Whether the table holds no pair.
    #[inline]
    pub fn is_empty(&self) -> (empty: bool)
        ensures
            empty == (self.spec_len() == 0),
    {
        self.num_elements == 0
    }

    /// The number of slots that hash codes are mapped to. Zero for a table
    /// without slots, and for a table whose capacity is one.
    #[inline]
    #[verifier::when_used_as_spec(spec_capacity)]
    pub fn capacity(&self) -> (capacity: usize)
        ensures
            capacity == self.spec_capacity(),
    {
        if self.num_slots == 0 {
            0
        } else {
            self.num_slots.saturating_add(1)
        }
    }

    /// The current probe bound: no pair lies further from its desired index.
    /// It is the bound computed from the capacity, unless a pair could not be
    /// placed within that.
    #[inline]
    #[verifier::when_used_as_spec(spec_max_lookups)]
    pub fn max_lookups(&self) -> (bound: usize)
        ensures
            bound == self.spec_max_lookups(),
    {
        self.max_lookups
    }

    /// The hasher factory the table was made with.
    #[inline]
    pub fn hasher(&self) -> (build_hasher: &H)
        ensures
            *build_hasher == self.spec_hasher(),
    {
        &self.build_hasher.build_hasher
    }

    /// The index policy the table was made with.
    #[inline]
    pub fn policy(&self) -> (policy: &P)
        ensures
            *policy == self.spec_policy(),
    {
        &self.build_hasher.policy
    }

    /// The hash code of `key` under the table's hasher.
    #[inline]
    pub fn hash_key(&self, key: &K) -> (hash: u64) {
        hash_one(&self.build_hasher.build_hasher, key)
    }

    /// The pairs of the table in the order of its slots, each with its
    /// identity and its value.
    pub closed spec fn spec_pairs(&self) -> Seq<((u64, K), V)> {
        pairs_from(self.buckets@, 0)
    }

    /// A cursor over the pairs of the table, in the order of its slots.
    pub fn iter(&self) -> (iter: Iter<'_, K, V>)
        requires
            self.wf(),
        ensures
            iter.wf(),
            iter.remaining() == self.spec_pairs(),
            iter.remaining().len() == self.len(),
    {
        Iter::new(self.buckets.as_slice(), self.num_elements)
    }
}

} // verus!

//! An open-addressing hash table with Robin Hood displacement and
//! backward-shift deletion. The index mapping and the hash computation are
//! both supplied by the caller.
//!
//! # The model
//!
//! A table stores pairs of a key and a value in an array of slots. Each pair
//! is stored together with the hash code it was inserted under, and the pair
//! of that hash code and the key is the pair's identity: the view of a
//! [`HashTable`] is the map from identities to values. The operations that
//! take the hash code as an argument (`insert_with_hash`, `get_with_hash`,
//! `get_mut_with_hash`, `remove_with_hash`) are specified exactly over this
//! map; `insert`, `get`, `get_mut` and `remove` ask the table's hasher for the
//! hash code and do the same.
//!
//! Nothing is assumed of the hasher. Hash codes come from
//! `std::hash::BuildHasher::hash_one`, whose result the table takes as it
//! comes: the contracts of the operations that hash say that they act under
//! some hash code. A hasher that gives one key two hash codes makes the table
//! hold the key twice, once under each, and never breaks the table.
//!
//! The index policy is the trait [`HashPolicy`]. It names the functions that
//! an implementation computes, and the table relies on nothing else: an index
//! beyond the storage counts as index zero, and a capacity that the pairs
//! would fill more than half of is not used.
//!
//! The pairs of a table never fill more than half of its capacity. Before a
//! pair is stored the table asks its policy for twice the number of pairs it
//! is to hold; where the policy gives less, the table takes the capacity it
//! asked for.
//!
//! Keys are compared with `==`. What the contracts say of the entries of a
//! table they say for key types whose `==` is equality
//! (`vstd::laws_eq::obeys_concrete_eq`); the invariant of the table, and with
//! it the absence of overflow and of indexing out of bounds, holds for every
//! key type.
//!
//! # The modules
//!
//! - [`entry`]: a slot.
//! - [`policy`]: the index policy and its power-of-two implementation.
//! - [`layout`]: the mathematical model of the slot array.
//! - [`hash_table`]: the table and its operations.
//! - [`iter`]: the cursor over the pairs of a table.
//! - [`laws`]: what follows from the contracts for operations made one after
//!   another.

mod contents;
pub mod entry;
pub mod hash_table;
pub mod iter;
pub mod laws;
pub mod layout;
mod ordering;
pub mod policy;

pub use entry::HashEntry;
pub use hash_table::BuildHasherWrapper;
pub use hash_table::HashTable;
pub use hash_table::clone_is_exact;
pub use hash_table::MAX_LEN;
pub use iter::Iter;
pub use policy::HashPolicy;
pub use policy::PowerOf2HashPolicy;
pub use policy::SelectHashPolicy;
pub use policy::MIN_LOOKUPS;

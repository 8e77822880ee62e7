//! A slot of the table.

use vstd::prelude::*;

verus! {

/// One storage cell of the table: empty, or holding a key/value pair together
/// with the hash code the pair was stored under and the number of probe steps
/// that separate the cell from the pair's desired index.
#[derive(Debug)]
pub enum HashEntry<K, V> {
    Empty,
    Occupied { hash: u64, key: K, value: V, displacement: usize },
}

impl<K, V> HashEntry<K, V> {
    /// The displacement of an occupied cell; `None` for an empty one.
    pub open spec fn spec_displacement(&self) -> Option<usize> {
        match self {
            HashEntry::Empty => None,
            HashEntry::Occupied { displacement, .. } => Some(*displacement),
        }
    }

    /// The identity of the stored pair: its hash code and its key.
    pub open spec fn spec_id(&self) -> Option<(u64, K)> {
        match self {
            HashEntry::Empty => None,
            HashEntry::Occupied { hash, key, .. } => Some((*hash, *key)),
        }
    }

    /// The stored value; `None` for an empty cell.
    pub open spec fn spec_value(&self) -> Option<V> {
        match self {
            HashEntry::Empty => None,
            HashEntry::Occupied { value, .. } => Some(*value),
        }
    }

    /// An occupied slot.
    #[inline]
    pub fn new(hash: u64, key: K, value: V, displacement: usize) -> (entry: Self)
        ensures
            entry == (HashEntry::Occupied { hash, key, value, displacement }),
    {
        HashEntry::Occupied { hash, key, value, displacement }
    }

    /// An empty slot.
    #[inline]
    pub fn empty() -> (entry: Self)
        ensures
            entry is Empty,
    {
        HashEntry::Empty
    }

    /// Whether the slot holds a pair.
    #[inline]
    pub fn has_value(&self) -> (occupied: bool)
        ensures
            occupied == (self is Occupied),
    {
        match self {
            HashEntry::Empty => false,
            HashEntry::Occupied { .. } => true,
        }
    }

    /// Whether the slot holds no pair.
    #[inline]
    pub fn is_empty(&self) -> (empty: bool)
        ensures
            empty == (self is Empty),
    {
        match self {
            HashEntry::Empty => true,
            HashEntry::Occupied { .. } => false,
        }
    }

    /// An empty cell counts as being at its desired position, as does a pair
    /// that was never displaced.
    #[inline]
    pub fn is_at_desired_position(&self) -> (at_home: bool)
        ensures
            at_home == (self.spec_displacement() matches Some(d) ==> d == 0),
    {
        match self {
            HashEntry::Empty => true,
            HashEntry::Occupied { displacement, .. } => *displacement == 0,
        }
    }
}

impl<K: Clone, V: Clone> Clone for HashEntry<K, V> {
    /// An entry with the hash code and displacement of this one, and with
    /// clones of its key and value.
    fn clone(&self) -> (copy: Self)
        ensures
            match (*self, copy) {
                (HashEntry::Empty, HashEntry::Empty) => true,
                (
                    HashEntry::Occupied { hash, key, value, displacement },
                    HashEntry::Occupied {
                        hash: copy_hash,
                        key: copy_key,
                        value: copy_value,
                        displacement: copy_displacement,
                    },
                ) => {
                    &&& copy_hash == hash
                    &&& copy_displacement == displacement
                    &&& cloned(key, copy_key)
                    &&& cloned(value, copy_value)
                },
                _ => false,
            },
    {
        match self {
            HashEntry::Empty => HashEntry::Empty,
            HashEntry::Occupied { hash, key, value, displacement } => HashEntry::Occupied {
                hash: *hash,
                key: key.clone(),
                value: value.clone(),
                displacement: *displacement,
            },
        }
    }
}

impl<K, V> Default for HashEntry<K, V> {
    /// An empty slot.
    fn default() -> (entry: Self)
        ensures
            entry is Empty,
    {
        HashEntry::Empty
    }
}

} // verus!

//! Laws of the table's operations, stated over the entries they leave.
//!
//! The operations say what they return, and which entries they leave, in
//! terms of `lookup`, `Map::insert` and `Map::remove`. The laws here say what
//! follows for operations made one after another, and how a table reads as a
//! map from keys where its hash codes are a function of the key: for any
//! sequence of inserts, removes and resizes under such hash codes, a lookup
//! finds what the last operation on the key left.

use crate::layout::lookup;
use vstd::prelude::*;

verus! {

/// After a pair is stored, a lookup of the pair finds the value stored, and
/// a lookup of any other pair finds what it found before.
pub proof fn lemma_insert_then_lookup<K, V>(
    entries: Map<(u64, K), V>,
    hash: u64,
    key: K,
    value: V,
    other_hash: u64,
    other_key: K,
)
    ensures
        lookup(entries.insert((hash, key), value), hash, key) == Some(value),
        (other_hash, other_key) != (hash, key) ==> lookup(
            entries.insert((hash, key), value),
            other_hash,
            other_key,
        ) == lookup(entries, other_hash, other_key),
{
}

/// Storing a pair that is there leaves the number of entries as it is;
/// storing one that is not there adds one.
pub proof fn lemma_insert_len<K, V>(entries: Map<(u64, K), V>, hash: u64, key: K, value: V)
    requires
        entries.dom().finite(),
    ensures
        entries.insert((hash, key), value).dom().finite(),
        entries.insert((hash, key), value).len() == entries.len() + if lookup(
            entries,
            hash,
            key,
        ) is Some {
            0int
        } else {
            1int
        },
{
}

/// The entries after the pairs of a sequence were stored one after another.
pub open spec fn insert_all<K, V>(entries: Map<(u64, K), V>, pairs: Seq<((u64, K), V)>) -> Map<
    (u64, K),
    V,
>
    decreases pairs.len(),
{
    if pairs.len() == 0 {
        entries
    } else {
        insert_all(entries, pairs.drop_last()).insert(pairs.last().0, pairs.last().1)
    }
}

/// The value of the last pair of a sequence with this identity.
pub open spec fn last_stored<K, V>(pairs: Seq<((u64, K), V)>, id: (u64, K)) -> Option<V>
    decreases pairs.len(),
{
    if pairs.len() == 0 {
        None
    } else if pairs.last().0 == id {
        Some(pairs.last().1)
    } else {
        last_stored(pairs.drop_last(), id)
    }
}

/// After any sequence of pairs was stored, a lookup finds the value that was
/// stored last for the pair, and what it found before for a pair that was
/// not stored.
pub proof fn lemma_insert_all_then_lookup<K, V>(
    entries: Map<(u64, K), V>,
    pairs: Seq<((u64, K), V)>,
    hash: u64,
    key: K,
)
    ensures
        lookup(insert_all(entries, pairs), hash, key) == match last_stored(pairs, (hash, key)) {
            Some(value) => Some(value),
            None => lookup(entries, hash, key),
        },
    decreases pairs.len(),
{
    if pairs.len() > 0 {
        lemma_insert_all_then_lookup(entries, pairs.drop_last(), hash, key);
    }
}

/// After a pair is removed, a lookup of the pair finds nothing, a second
/// removal removes nothing, and a lookup of any other pair finds what it found
/// before.
pub proof fn lemma_remove_then_lookup<K, V>(
    entries: Map<(u64, K), V>,
    hash: u64,
    key: K,
    other_hash: u64,
    other_key: K,
)
    ensures
        lookup(entries.remove((hash, key)), hash, key) is None,
        entries.remove((hash, key)).remove((hash, key)) == entries.remove((hash, key)),
        (other_hash, other_key) != (hash, key) ==> lookup(
            entries.remove((hash, key)),
            other_hash,
            other_key,
        ) == lookup(entries, other_hash, other_key),
{
    assert(entries.remove((hash, key)).remove((hash, key)) =~= entries.remove((hash, key)));
}

/// Removing a pair that is there takes one from the number of entries;
/// removing one that is not there changes nothing.
pub proof fn lemma_remove_len<K, V>(entries: Map<(u64, K), V>, hash: u64, key: K)
    requires
        entries.dom().finite(),
    ensures
        entries.remove((hash, key)).dom().finite(),
        entries.remove((hash, key)).len() == entries.len() - if lookup(entries, hash, key) is Some {
            1int
        } else {
            0int
        },
        lookup(entries, hash, key) is None ==> entries.remove((hash, key)) == entries,
{
    if lookup(entries, hash, key) is None {
        assert(entries.remove((hash, key)) =~= entries);
    }
}

/// Every entry is stored under the hash code that `hash_of` gives its key.
pub open spec fn keyed_by<K, V>(entries: Map<(u64, K), V>, hash_of: spec_fn(K) -> u64) -> bool {
    forall|id: (u64, K)| #[trigger] entries.contains_key(id) ==> id.0 == hash_of(id.1)
}

/// The entries read as a map from keys, for hash codes given by `hash_of`.
pub open spec fn by_key<K, V>(entries: Map<(u64, K), V>, hash_of: spec_fn(K) -> u64) -> Map<K, V> {
    Map::new(
        |key: K| entries.contains_key((hash_of(key), key)),
        |key: K| entries[(hash_of(key), key)],
    )
}

/// A lookup under the hash code of the key reads the map from keys.
pub proof fn lemma_by_key_lookup<K, V>(
    entries: Map<(u64, K), V>,
    hash_of: spec_fn(K) -> u64,
    key: K,
)
    ensures
        lookup(entries, hash_of(key), key) == if by_key(entries, hash_of).contains_key(key) {
            Some(by_key(entries, hash_of)[key])
        } else {
            None
        },
{
}

/// Storing a pair under the hash code of its key stores the key in the map
/// from keys, and keeps every entry under the hash code of its key.
pub proof fn lemma_by_key_insert<K, V>(
    entries: Map<(u64, K), V>,
    hash_of: spec_fn(K) -> u64,
    key: K,
    value: V,
)
    requires
        keyed_by(entries, hash_of),
    ensures
        keyed_by(entries.insert((hash_of(key), key), value), hash_of),
        by_key(entries.insert((hash_of(key), key), value), hash_of) == by_key(
            entries,
            hash_of,
        ).insert(key, value),
{
    assert(by_key(entries.insert((hash_of(key), key), value), hash_of) =~= by_key(
        entries,
        hash_of,
    ).insert(key, value));
}

/// Removing a pair under the hash code of its key removes the key from the
/// map from keys, and keeps every entry under the hash code of its key.
pub proof fn lemma_by_key_remove<K, V>(
    entries: Map<(u64, K), V>,
    hash_of: spec_fn(K) -> u64,
    key: K,
)
    requires
        keyed_by(entries, hash_of),
    ensures
        keyed_by(entries.remove((hash_of(key), key)), hash_of),
        by_key(entries.remove((hash_of(key), key)), hash_of) == by_key(entries, hash_of).remove(
            key,
        ),
{
    assert(by_key(entries.remove((hash_of(key), key)), hash_of) =~= by_key(
        entries,
        hash_of,
    ).remove(key));
}

/// The map from keys has as many keys as there are entries.
pub proof fn lemma_by_key_len<K, V>(entries: Map<(u64, K), V>, hash_of: spec_fn(K) -> u64)
    requires
        keyed_by(entries, hash_of),
        entries.dom().finite(),
    ensures
        by_key(entries, hash_of).dom().finite(),
        by_key(entries, hash_of).len() == entries.len(),
    decreases entries.len(),
{
    let keys = by_key(entries, hash_of);
    if entries.len() == 0 {
        assert(entries.dom() =~= Set::empty());
        assert forall|key: K| !keys.dom().contains(key) by {
            assert(!entries.dom().contains((hash_of(key), key)));
        }
        assert(keys.dom() =~= Set::empty());
    } else {
        let id = entries.dom().choose();
        assert(entries.contains_key(id));
        let rest = entries.remove(id);
        lemma_by_key_len(rest, hash_of);
        assert(by_key(rest, hash_of).dom() =~= keys.dom().remove(id.1));
        assert(keys.dom() =~= by_key(rest, hash_of).dom().insert(id.1));
    }
}

/// One operation on a table, by the key it names: `insert` of a key and a
/// value, `remove` of a key, or `resize`, which names no key.
pub enum Operation<K, V> {
    Insert { key: K, value: V },
    Remove { key: K },
    Resize,
}

/// The entries an operation leaves, where keys are hashed by `hash_of`: what
/// `insert_with_hash`, `remove_with_hash` and `resize` ensure of the view.
pub open spec fn after<K, V>(
    entries: Map<(u64, K), V>,
    hash_of: spec_fn(K) -> u64,
    operation: Operation<K, V>,
) -> Map<(u64, K), V> {
    match operation {
        Operation::Insert { key, value } => entries.insert((hash_of(key), key), value),
        Operation::Remove { key } => entries.remove((hash_of(key), key)),
        Operation::Resize => entries,
    }
}

/// What an operation returns, where keys are hashed by `hash_of`: the value
/// that was stored under the key it names; nothing for `resize`.
pub open spec fn returned<K, V>(
    entries: Map<(u64, K), V>,
    hash_of: spec_fn(K) -> u64,
    operation: Operation<K, V>,
) -> Option<V> {
    match operation {
        Operation::Insert { key, .. } => lookup(entries, hash_of(key), key),
        Operation::Remove { key } => lookup(entries, hash_of(key), key),
        Operation::Resize => None,
    }
}

/// The entries after the operations of a sequence were made one after
/// another.
pub open spec fn after_all<K, V>(
    entries: Map<(u64, K), V>,
    hash_of: spec_fn(K) -> u64,
    operations: Seq<Operation<K, V>>,
) -> Map<(u64, K), V>
    decreases operations.len(),
{
    if operations.len() == 0 {
        entries
    } else {
        after(after_all(entries, hash_of, operations.drop_last()), hash_of, operations.last())
    }
}

/// What the last operation of a sequence that names `key` leaves under it:
/// the value of an `insert`, nothing after a `remove`. `None` where no
/// operation names the key.
pub open spec fn last_named<K, V>(operations: Seq<Operation<K, V>>, key: K) -> Option<Option<V>>
    decreases operations.len(),
{
    if operations.len() == 0 {
        None
    } else {
        match operations.last() {
            Operation::Insert { key: named, value } if named == key => Some(Some(value)),
            Operation::Remove { key: named } if named == key => Some(None),
            _ => last_named(operations.drop_last(), key),
        }
    }
}

/// Any sequence of inserts, removes and resizes keeps every entry under the
/// hash code of its key, and a lookup of a key after it finds what the last
/// operation that named the key left: the value of the last insert, nothing
/// after a remove, and what was there before where no operation named the
/// key. In the map from keys, each key has one value at most, and their
/// number is the number of entries.
pub proof fn lemma_after_all_then_lookup<K, V>(
    entries: Map<(u64, K), V>,
    hash_of: spec_fn(K) -> u64,
    operations: Seq<Operation<K, V>>,
    key: K,
)
    requires
        keyed_by(entries, hash_of),
    ensures
        keyed_by(after_all(entries, hash_of, operations), hash_of),
        lookup(after_all(entries, hash_of, operations), hash_of(key), key) == match last_named(
            operations,
            key,
        ) {
            Some(left) => left,
            None => lookup(entries, hash_of(key), key),
        },
        entries.dom().finite() ==> {
            &&& after_all(entries, hash_of, operations).dom().finite()
            &&& by_key(after_all(entries, hash_of, operations), hash_of).len() == after_all(
                entries,
                hash_of,
                operations,
            ).len()
        },
    decreases operations.len(),
{
    if operations.len() > 0 {
        lemma_after_all_then_lookup(entries, hash_of, operations.drop_last(), key);
    }
    if entries.dom().finite() {
        lemma_after_all_finite(entries, hash_of, operations);
        lemma_by_key_len(after_all(entries, hash_of, operations), hash_of);
    }
}

/// Operations on finitely many entries leave finitely many.
pub proof fn lemma_after_all_finite<K, V>(
    entries: Map<(u64, K), V>,
    hash_of: spec_fn(K) -> u64,
    operations: Seq<Operation<K, V>>,
)
    requires
        entries.dom().finite(),
    ensures
        after_all(entries, hash_of, operations).dom().finite(),
    decreases operations.len(),
{
    if operations.len() > 0 {
        lemma_after_all_finite(entries, hash_of, operations.drop_last());
    }
}

/// What an operation returns and how it changes the number of entries: an
/// insert of a key that is there returns its value and leaves the number; an
/// insert of a key that is not there returns nothing and adds one; a remove
/// of a key that is there returns its value and takes one; a remove of a key
/// that is not there returns nothing and changes nothing; a resize changes
/// nothing.
pub proof fn lemma_after_len<K, V>(
    entries: Map<(u64, K), V>,
    hash_of: spec_fn(K) -> u64,
    operation: Operation<K, V>,
)
    requires
        entries.dom().finite(),
    ensures
        after(entries, hash_of, operation).dom().finite(),
        after(entries, hash_of, operation).len() == entries.len() + match operation {
            Operation::Insert { .. } => if returned(entries, hash_of, operation) is Some {
                0int
            } else {
                1int
            },
            Operation::Remove { .. } => if returned(entries, hash_of, operation) is Some {
                -1int
            } else {
                0int
            },
            Operation::Resize => 0int,
        },
        operation is Remove && returned(entries, hash_of, operation) is None ==> after(
            entries,
            hash_of,
            operation,
        ) == entries,
{
    match operation {
        Operation::Insert { key, value } => {
            lemma_insert_len(entries, hash_of(key), key, value);
        },
        Operation::Remove { key } => {
            lemma_remove_len(entries, hash_of(key), key);
        },
        Operation::Resize => {},
    }
}

} // verus!

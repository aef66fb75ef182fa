//! The outside collections behind the account locks, each with the one thing the locks need to
//! know of it: what it holds.
use ahash::{AHashMap, AHashSet};
use dashmap::DashMap;
use solana_message::AccountKeys;
use solana_transaction::sanitized::MAX_TX_ACCOUNT_LOCKS;
use vstd::prelude::*;

verus! {

#[verifier::external_type_specification]
#[verifier::external_body]
#[verifier::reject_recursive_types(K)]
#[verifier::reject_recursive_types(V)]
#[verifier::reject_recursive_types(S)]
pub struct ExAHashMap<K, V, S>(ahash::AHashMap<K, V, S>);

#[verifier::external_type_specification]
#[verifier::external_body]
#[verifier::reject_recursive_types(T)]
#[verifier::reject_recursive_types(S)]
pub struct ExAHashSet<T, S>(ahash::AHashSet<T, S>);

#[verifier::external_type_specification]
#[verifier::external_body]
pub struct ExAHashRandomState(ahash::RandomState);

#[verifier::external_type_specification]
#[verifier::external_body]
pub struct ExAccountKeys<'a>(solana_message::AccountKeys<'a>);

/// The number stored for each key of a table of counts.
pub uninterp spec fn counts_of(table: AHashMap<[u8; 32], u64>) -> Map<Seq<u8>, u64>;

/// Calls `AHashMap::new`: a table without entries.
#[verifier::external_body]
pub(crate) fn new_counts() -> (table: AHashMap<[u8; 32], u64>)
    ensures
        counts_of(table).dom() == Set::<Seq<u8>>::empty(),
{
    AHashMap::new()
}

/// Calls `AHashMap::get`: the number stored under the key, if there is one.
#[verifier::external_body]
pub(crate) fn count_of(table: &AHashMap<[u8; 32], u64>, key: &[u8; 32]) -> (count: Option<u64>)
    ensures
        count == if counts_of(*table).contains_key(key@) {
            Some(counts_of(*table)[key@])
        } else {
            None
        },
{
    table.get(key).copied()
}

/// Calls `AHashMap::insert`: afterwards the number is stored under the key, in place of any
/// earlier one, and every other entry is as before.
#[verifier::external_body]
pub(crate) fn set_count(table: &mut AHashMap<[u8; 32], u64>, key: &[u8; 32], count: u64)
    ensures
        counts_of(*final(table)) == counts_of(*old(table)).insert(key@, count),
{
    table.insert(*key, count);
}

/// Calls `AHashMap::remove`: afterwards there is no entry for the key, and every other entry is
/// as before.
#[verifier::external_body]
pub(crate) fn drop_count(table: &mut AHashMap<[u8; 32], u64>, key: &[u8; 32])
    ensures
        counts_of(*final(table)) == counts_of(*old(table)).remove(key@),
{
    table.remove(key);
}

/// The pair of readers and writers stored for each key of a lock table.
pub uninterp spec fn pairs_of(table: DashMap<[u8; 32], (u64, u64)>) -> Map<Seq<u8>, (u64, u64)>;

/// Calls `DashMap::new`: a table without entries.
#[verifier::external_body]
pub(crate) fn new_pairs() -> (table: DashMap<[u8; 32], (u64, u64)>)
    ensures
        pairs_of(table).dom() == Set::<Seq<u8>>::empty(),
{
    DashMap::new()
}

/// Calls `DashMap::get`: the pair stored under the key, if there is one.
#[verifier::external_body]
pub(crate) fn pair_of(table: &DashMap<[u8; 32], (u64, u64)>, key: &[u8; 32]) -> (pair: Option<
    (u64, u64),
>)
    ensures
        pair == if pairs_of(*table).contains_key(key@) {
            Some(pairs_of(*table)[key@])
        } else {
            None
        },
{
    table.get(key).map(|entry| *entry.value())
}

/// Calls `DashMap::insert`: afterwards the pair is stored under the key, in place of any earlier
/// one, and every other entry is as before.
#[verifier::external_body]
pub(crate) fn set_pair(table: &mut DashMap<[u8; 32], (u64, u64)>, key: &[u8; 32], pair: (u64, u64))
    ensures
        pairs_of(*final(table)) == pairs_of(*old(table)).insert(key@, pair),
{
    table.insert(*key, pair);
}

/// Calls `DashMap::remove`: afterwards there is no entry for the key, and every other entry is as
/// before.
#[verifier::external_body]
pub(crate) fn drop_pair(table: &mut DashMap<[u8; 32], (u64, u64)>, key: &[u8; 32])
    ensures
        pairs_of(*final(table)) == pairs_of(*old(table)).remove(key@),
{
    table.remove(key);
}

/// The keys in a set of keys.
pub uninterp spec fn keys_of(set: AHashSet<[u8; 32]>) -> Set<Seq<u8>>;

/// Calls `AHashSet::with_capacity`: an empty set.
#[verifier::external_body]
pub(crate) fn new_key_set() -> (set: AHashSet<[u8; 32]>)
    ensures
        keys_of(set) == Set::<Seq<u8>>::empty(),
{
    AHashSet::with_capacity(MAX_TX_ACCOUNT_LOCKS)
}

/// Calls the set's `insert`: the key is in the set afterwards, and the result says whether it was
/// new.
#[verifier::external_body]
pub(crate) fn insert_key(set: &mut AHashSet<[u8; 32]>, key: [u8; 32]) -> (new: bool)
    ensures
        keys_of(*final(set)) == keys_of(*old(set)).insert(key@),
        new == !keys_of(*old(set)).contains(key@),
{
    set.insert(key)
}

/// The keys of a message in order: the static ones, then the loaded writable ones, then the
/// loaded readonly ones.
pub uninterp spec fn key_list(keys: AccountKeys<'_>) -> Seq<Seq<u8>>;

/// Calls `AccountKeys::len`: the number of keys.
#[verifier::external_body]
pub(crate) fn key_count(keys: &AccountKeys<'_>) -> (count: usize)
    ensures
        count == key_list(*keys).len(),
{
    keys.len()
}

/// Indexes `AccountKeys`: the key at that place in the list.
#[verifier::external_body]
pub(crate) fn key_at(keys: &AccountKeys<'_>, index: usize) -> (key: [u8; 32])
    requires
        index < key_list(*keys).len(),
    ensures
        key@ == key_list(*keys)[index as int],
{
    keys[index].to_bytes()
}

} // verus!

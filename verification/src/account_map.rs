//! The map of account payloads that a ring reader keeps up to date.
//!
//! The map itself is `dashmap::DashMap`, keyed by public key and hashed with gxhash. The
//! functions here are the only places that touch it.
use dashmap::DashMap;
use gxhash::GxBuildHasher;
use solana_pubkey::Pubkey;
use vstd::prelude::*;

verus! {

#[verifier::external_type_specification]
#[verifier::external_body]
pub struct ExPubkey(solana_pubkey::Pubkey);

#[verifier::external_type_specification]
#[verifier::external_body]
pub struct ExGxBuildHasher(gxhash::GxBuildHasher);

#[verifier::external_type_specification]
#[verifier::external_body]
#[verifier::reject_recursive_types(K)]
#[verifier::reject_recursive_types(V)]
#[verifier::reject_recursive_types(S)]
pub struct ExDashMap<K, V, S>(dashmap::DashMap<K, V, S>);

/// The payload stored for each public key, keys and payloads as byte strings.
pub uninterp spec fn account_payloads(map: DashMap<Pubkey, Vec<u8>, GxBuildHasher>) -> Map<
    Seq<u8>,
    Seq<u8>,
>;

/// Calls `DashMap::get` and copies the payload out: the payload stored under the key, or
/// `None` where the map holds no such key.
#[verifier::external_body]
pub(crate) fn stored_payload(
    map: &DashMap<Pubkey, Vec<u8>, GxBuildHasher>,
    key: &[u8; 32],
) -> (found: Option<Vec<u8>>)
    ensures
        found is Some <==> account_payloads(*map).dom().contains(key@),
        found is Some ==> found->Some_0@ == account_payloads(*map)[key@],
{
    map.get(&Pubkey::new_from_array(*key)).map(|entry| entry.value().clone())
}

/// Calls `DashMap::insert`: afterwards the map holds the payload under the key, in place of
/// any earlier one, and every other entry is as before.
#[verifier::external_body]
pub(crate) fn store_payload(
    map: &mut DashMap<Pubkey, Vec<u8>, GxBuildHasher>,
    key: &[u8; 32],
    payload: Vec<u8>,
)
    ensures
        account_payloads(*final(map)) == account_payloads(*old(map)).insert(key@, payload@),
{
    map.insert(Pubkey::new_from_array(*key), payload);
}

} // verus!

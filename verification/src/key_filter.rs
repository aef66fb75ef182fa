//! The filter of public keys: `fastbloom::AtomicBloomFilter`, and the outside functions that turn
//! text into keys.
use fastbloom::AtomicBloomFilter;
use gxhash::GxBuildHasher;
use solana_pubkey::Pubkey;
use std::str::FromStr;
use vstd::prelude::*;

verus! {

#[verifier::external_type_specification]
#[verifier::external_body]
#[verifier::reject_recursive_types(S)]
pub struct ExAtomicBloomFilter<S>(fastbloom::AtomicBloomFilter<S>);

/// The bits of the filter that are set.
pub uninterp spec fn filter_bits(filter: AtomicBloomFilter<GxBuildHasher>) -> Set<int>;

/// The bits that a key needs, which follow from the filter's size, number of hashes and hasher.
pub uninterp spec fn needed_bits(filter: AtomicBloomFilter<GxBuildHasher>) -> Map<
    Seq<u8>,
    Set<int>,
>;

/// The keys that the filter lets through: those all of whose bits are set.
pub open spec fn passes(filter: AtomicBloomFilter<GxBuildHasher>) -> Set<Seq<u8>> {
    Set::new(
        |key: Seq<u8>|
            key.len() == 32 && needed_bits(filter)[key].subset_of(filter_bits(filter)),
    )
}

/// Calls `AtomicBloomFilter::contains`: whether all bits that the key needs are set.
#[verifier::external_body]
pub(crate) fn filter_contains(filter: &AtomicBloomFilter<GxBuildHasher>, key: &[u8; 32]) -> (found:
    bool)
    ensures
        found == needed_bits(*filter)[key@].subset_of(filter_bits(*filter)),
{
    filter.contains(key)
}

/// Calls `AtomicBloomFilter::insert`: the bits that the key needs are set afterwards, and no other
/// bit changes. The bits that each key needs stay the same.
#[verifier::external_body]
pub(crate) fn filter_insert(filter: &mut AtomicBloomFilter<GxBuildHasher>, key: &[u8; 32])
    ensures
        needed_bits(*final(filter)) == needed_bits(*old(filter)),
        filter_bits(*final(filter)) == filter_bits(*old(filter)).union(
            needed_bits(*old(filter))[key@],
        ),
{
    filter.insert(key);
}

/// Calls `AtomicBloomFilter::clear`: no bit is set afterwards. The bits that each key needs stay the
/// same; a key needs at least one, since the number of hashes is never 0.
#[verifier::external_body]
pub(crate) fn filter_clear(filter: &mut AtomicBloomFilter<GxBuildHasher>)
    ensures
        needed_bits(*final(filter)) == needed_bits(*old(filter)),
        filter_bits(*final(filter)) == Set::<int>::empty(),
        forall|key: Seq<u8>|
            key.len() == 32 ==> #[trigger] needed_bits(*final(filter))[key] != Set::<int>::empty(),
{
    filter.clear();
}

/// The public key that a text stands for, or the reason why it stands for none.
pub uninterp spec fn parsed_key(text: Seq<char>) -> Result<Seq<u8>, Seq<char>>;

/// A parsed key, by its contents.
pub open spec fn key_view(parsed: Result<[u8; 32], String>) -> Result<Seq<u8>, Seq<char>> {
    match parsed {
        Ok(key) => Ok(key@),
        Err(reason) => Err(reason@),
    }
}

/// Calls `Pubkey::from_str`; the outcome, with the error as text, depends on the text alone.
#[verifier::external_body]
pub(crate) fn parse_key(text: &str) -> (parsed: Result<[u8; 32], String>)
    ensures
        key_view(parsed) == parsed_key(text@),
{
    Pubkey::from_str(text).map(|key| key.to_bytes()).map_err(|e| e.to_string())
}

/// The strings of the JSON array that a text holds, or the reason why it holds none.
pub uninterp spec fn json_strings(text: Seq<char>) -> Result<Seq<Seq<char>>, Seq<char>>;

/// Strings, by their contents.
pub open spec fn string_views(strings: Seq<String>) -> Seq<Seq<char>> {
    strings.map_values(|s: String| s@)
}

/// A parsed array, by its contents.
pub open spec fn strings_view(parsed: Result<Vec<String>, String>) -> Result<
    Seq<Seq<char>>,
    Seq<char>,
> {
    match parsed {
        Ok(strings) => Ok(string_views(strings@)),
        Err(reason) => Err(reason@),
    }
}

/// Calls `serde_json::from_str` for an array of strings; the outcome, with the error as text,
/// depends on the text alone.
#[verifier::external_body]
pub(crate) fn parse_json_strings(text: &str) -> (parsed: Result<Vec<String>, String>)
    ensures
        strings_view(parsed) == json_strings(text@),
{
    serde_json::from_str::<Vec<String>>(text).map_err(|e| e.to_string())
}

/// The text of some bytes, with a replacement character for what is not valid UTF-8.
pub uninterp spec fn lossy_text(bytes: Seq<u8>) -> Seq<char>;

/// Calls `String::from_utf8_lossy`; the text depends on the bytes alone, and valid UTF-8 is decoded
/// as it stands.
#[verifier::external_body]
pub(crate) fn decode_lossy(bytes: &[u8]) -> (text: String)
    ensures
        text@ == lossy_text(bytes@),
        vstd::utf8::valid_utf8(bytes@) ==> text@ == vstd::utf8::decode_utf8(bytes@),
{
    String::from_utf8_lossy(bytes).into_owned()
}

} // verus!

//! The customary texts of signatures and hashes.
use solana_signature::Signature;
use vstd::prelude::*;

verus! {

/// The text of a signature.
pub uninterp spec fn signature_text(signature: Seq<u8>) -> Seq<char>;

/// Renders a signature through `Signature`'s `Display`. The text depends on the bytes alone and
/// takes at most 88 bytes, the size of the buffer that it is written from.
#[verifier::external_body]
pub(crate) fn text_of_signature(signature: &[u8; 64]) -> (text: String)
    ensures
        text@ == signature_text(signature@),
        vstd::utf8::encode_utf8(text@).len() <= 88,
{
    Signature::from(*signature).to_string()
}

/// The text of a hash.
pub uninterp spec fn hash_text(hash: Seq<u8>) -> Seq<char>;

/// Renders a hash through `Hash`'s `Display`. The text depends on the bytes alone and takes at
/// most 44 bytes, the size of the buffer that it is written from.
#[verifier::external_body]
pub(crate) fn text_of_hash(hash: &[u8; 32]) -> (text: String)
    ensures
        text@ == hash_text(hash@),
        vstd::utf8::encode_utf8(text@).len() <= 44,
{
    solana_hash::Hash::new_from_array(*hash).to_string()
}

} // verus!

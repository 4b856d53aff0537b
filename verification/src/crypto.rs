//! Named results of outside computations: the SHA-256 digest used to key
//! stored outputs, and the textual form of a principal identity.

use vstd::prelude::*;
use sha2::Digest;

verus! {

/// The lowercase hexadecimal SHA-256 digest of a text (hashed in its
/// canonical byte encoding); a function of the characters alone.
pub uninterp spec fn sha256_hex_of(text: Seq<char>) -> Seq<char>;

/// The canonical textual form of a principal identity; a function of its
/// bytes alone.
pub uninterp spec fn principal_text_of(bytes: Seq<u8>) -> Seq<char>;

/// Relies on sha2::Sha256::digest (a 32-byte digest of the input alone) and
/// hex::encode (two lowercase digits per byte).
#[verifier::external_body]
pub(crate) fn sha256_hex(text: &String) -> (r: String)
    ensures
        r@ == sha256_hex_of(text@),
        r@.len() == 64,
{
    hex::encode(sha2::Sha256::digest(text.as_bytes()))
}

/// Relies on candid::Principal::from_slice (accepts up to 29 bytes, panics
/// beyond) and Principal::to_text (the text depends on the bytes alone).
#[verifier::external_body]
pub(crate) fn principal_text(bytes: &Vec<u8>) -> (r: String)
    requires
        bytes@.len() <= 29,
    ensures
        r@ == principal_text_of(bytes@),
{
    candid::Principal::from_slice(bytes.as_slice()).to_text()
}

} // verus!

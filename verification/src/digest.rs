//! The content digest used to compare candidate files, computed by an
//! outside cryptographic library and named, not restated, here.
use vstd::prelude::*;

use sha2::{Digest, Sha256};

verus! {

/// The name of the SHA-256 digest of a byte string, rendered as lowercase
/// hex: a function of the bytes alone.  Nothing else is assumed of it.
pub uninterp spec fn sha256_hex_of(bytes: Seq<u8>) -> Seq<u8>;

/// Relies on `sha2::Sha256` through `digest::Digest::digest`: the digest of
/// a byte string is a function of those bytes alone, 32 bytes long, and its
/// `{:x}` rendering (from `generic_array`'s `LowerHex`) is the 64-character
/// lowercase hex form, two characters per digest byte.
#[verifier::external_body]
pub(crate) fn sha256_hex(bytes: &Vec<u8>) -> (r: Vec<u8>)
    ensures
        r@ == sha256_hex_of(bytes@),
        r@.len() == 64,
{
    let digest = Sha256::digest(bytes.as_slice());
    format!("{:x}", digest).into_bytes()
}

} // verus!

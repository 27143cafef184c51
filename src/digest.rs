use vstd::prelude::*;
use sha2::{Digest, Sha256};

verus! {

/// The SHA-256 digest of the UTF-8 encoding of `input`, as lowercase hex digits.
pub uninterp spec fn sha256_hex(input: Seq<char>) -> Seq<char>;

/// Relies on `sha2::Sha256::digest` for the 32-byte digest of `input`'s bytes,
/// formatted through generic-array's `LowerHex`: two digits per byte.
#[verifier::external_body]
pub(crate) fn sha256_hex_of(input: &str) -> (r: String)
    ensures
        r@ == sha256_hex(input@),
        r@.len() == 64,
{
    format!("{:x}", Sha256::digest(input.as_bytes()))
}

} // verus!

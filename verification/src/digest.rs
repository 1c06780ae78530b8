//! SHA-256 digests in lowercase hexadecimal.
use vstd::prelude::*;
use sha2::{Digest, Sha256};

verus! {

/// The SHA-256 digest of `bytes`, as lowercase hexadecimal characters.
pub uninterp spec fn sha256_hex(bytes: Seq<u8>) -> Seq<char>;

/// A character of `0-9a-f`.
pub open spec fn is_lower_hex(c: char) -> bool {
    (0x30 <= (c as u32) && (c as u32) <= 0x39) || (0x61 <= (c as u32) && (c as u32) <= 0x66)
}

/// `Sha256::digest` of `sha2`, formatted with `{:x}`. Claimed: the result is a
/// function of the bytes alone, and is 64 lowercase hexadecimal digits (32
/// digest bytes, two digits each, as generic-array's `LowerHex` writes them).
#[verifier::external_body]
pub fn sha256_bytes(bytes: &[u8]) -> (hex: String)
    ensures
        hex@ == sha256_hex(bytes@),
        hex@.len() == 64,
        forall|i: int| 0 <= i < 64 ==> is_lower_hex(#[trigger] hex@[i]),
{
    format!("{:x}", Sha256::digest(bytes))
}

} // verus!

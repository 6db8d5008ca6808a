//! SHA-256 digests of text, as lowercase hexadecimal.

use vstd::prelude::*;

use sha2::{Digest, Sha256};

verus! {

/// The SHA-256 digest of a text's UTF-8 bytes, written as lowercase hexadecimal.
pub uninterp spec fn sha256_of(text: Seq<char>) -> Seq<char>;

pub open spec fn is_lower_hex(c: char) -> bool {
    ('0' <= c && c <= '9') || ('a' <= c && c <= 'f')
}

/// Hashes the text's bytes with `sha2::Sha256` and formats the digest with `{:x}`.
///
/// Trusted: the result is `sha256_of` the text; `generic-array`'s `LowerHex` writes two
/// lowercase hexadecimal digits per byte of the 32-byte digest, so it has 64 of them.
#[verifier::external_body]
pub fn sha256_hex(value: &str) -> (res: String)
    ensures
        res@ == sha256_of(value@),
        res@.len() == 64,
        forall|i: int| 0 <= i < 64 ==> is_lower_hex(#[trigger] res@[i]),
{
    let mut hasher = Sha256::new();
    hasher.update(value.as_bytes());
    format!("{:x}", hasher.finalize())
}

} // verus!

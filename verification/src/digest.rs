//! Trusted boundary to the digest primitive (the `sha2` crate).

use vstd::prelude::*;

verus! {

/// The lowercase hexadecimal rendering of the SHA-256 digest of some
/// bytes.  The digest is a function of the bytes alone, the same in every
/// process and on every machine.
pub uninterp spec fn sha256_hex_of(b: Seq<u8>) -> Seq<char>;

/// Whether a character is a lowercase hexadecimal digit.
pub open spec fn is_lower_hex_digit(c: char) -> bool {
    ('0' <= c && c <= '9') || ('a' <= c && c <= 'f')
}

/// Relies on `sha2::Sha256` through the `Digest` trait: the digest is 32
/// bytes, and the `{:x}` rendering writes each byte as two lowercase
/// hexadecimal digits.
#[verifier::external_body]
pub(crate) fn sha256_hex(data: &Vec<u8>) -> (r: String)
    ensures
        r@ == sha256_hex_of(data@),
        r@.len() == 64,
        forall|i: int| 0 <= i < r@.len() ==> is_lower_hex_digit(#[trigger] r@[i]),
{
    let mut hasher: sha2::Sha256 = sha2::Digest::new();
    sha2::Digest::update(&mut hasher, data.as_slice());
    format!("{:x}", sha2::Digest::finalize(hasher))
}

} // verus!

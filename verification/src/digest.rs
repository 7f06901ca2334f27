//! Content fingerprints: the digest that keys the store.

use vstd::prelude::*;

verus! {

/// The hexadecimal digest of a byte sequence.  Two equal sequences always
/// carry the same fingerprint; what the digits are for given bytes is left
/// to the digest engine.
pub uninterp spec fn md5_hex_of(bytes: Seq<u8>) -> Seq<char>;

/// Whether `c` is a lower-case hexadecimal digit.
pub open spec fn is_hex_digit(c: char) -> bool {
    ('0' <= c && c <= '9') || ('a' <= c && c <= 'f')
}

/// Relies on `md5::compute` and the `LowerHex` rendering of `md5::Digest`:
/// the digest of the bytes alone, sixteen bytes written as two lower-case
/// hexadecimal digits each.
#[verifier::external_body]
fn md5_digest_hex(data: &Vec<u8>) -> (r: String)
    ensures
        r@ == md5_hex_of(data@),
        r@.len() == 32,
        forall|i: int| 0 <= i < r@.len() ==> is_hex_digit(#[trigger] r@[i]),
{
    let digest = md5::compute(data.as_slice());
    format!("{:x}", digest)
}

/// The fingerprint of a file's full byte contents: a fixed-length
/// hexadecimal string, identical for identical bytes.
pub fn calculate_md5(data: &Vec<u8>) -> (r: String)
    ensures
        r@ == md5_hex_of(data@),
        r@.len() == 32,
        forall|i: int| 0 <= i < r@.len() ==> is_hex_digit(#[trigger] r@[i]),
{
    md5_digest_hex(data)
}

} // verus!

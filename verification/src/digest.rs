//! SHA-256 digests and their hexadecimal rendering.

use vstd::prelude::*;
use sha2::Digest;

verus! {

/// What `sha2::Sha256::digest` returns for the given bytes.
pub uninterp spec fn spec_sha256(data: Seq<u8>) -> Seq<u8>;

/// `sha2::Sha256::digest`: the SHA-256 digest of `data`. Trusted: the result
/// is the named digest of the input, and a SHA-256 digest is 32 bytes long.
#[verifier::external_body]
pub(crate) fn sha256(data: &[u8]) -> (digest: Vec<u8>)
    ensures
        digest@ == spec_sha256(data@),
        digest@.len() == 32,
{
    sha2::Sha256::digest(data).to_vec()
}

/// The lowercase hexadecimal digit for a value below 16.
pub open spec fn hex_digit(d: u8) -> char {
    if d < 10 {
        ((d + 48) as u8) as char
    } else {
        ((d + 87) as u8) as char
    }
}

/// Lowercase hexadecimal rendering, two digits per byte, high half first.
pub open spec fn spec_hex(data: Seq<u8>) -> Seq<char> {
    Seq::new(2 * data.len(), |i: int| if i % 2 == 0 { hex_digit(data[i / 2] >> 4) } else { hex_digit(data[i / 2] & 0x0f) })
}

/// `hex::encode`: lowercase hexadecimal, two digits per byte. Trusted: the
/// result is the lowercase rendering that the crate documents.
#[verifier::external_body]
pub(crate) fn hex_encode(data: &[u8]) -> (s: String)
    ensures
        s@ == spec_hex(data@),
{
    hex::encode(data)
}

} // verus!

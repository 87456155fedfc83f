//! Key conversion and path manipulation utilities for trie operations.

use vstd::prelude::*;
use vstd::utf8::*;
use vstd::string::*;
use crate::text::{utf8_lossy, spec_utf8_lossy};

verus! {

/// The nibbles (4-bit halves, high half first) of a byte sequence.
pub open spec fn spec_nibbles(bytes: Seq<u8>) -> Seq<u8> {
    Seq::new(2 * bytes.len(), |i: int| if i % 2 == 0 { bytes[i / 2] >> 4 } else { bytes[i / 2] & 0x0f })
}

/// Packs consecutive pairs of nibbles back into bytes; a trailing unpaired
/// nibble is dropped.
pub open spec fn spec_pack_nibbles(nibbles: Seq<u8>) -> Seq<u8> {
    Seq::new(nibbles.len() / 2, |i: int| ((nibbles[2 * i] << 4u8) | nibbles[2 * i + 1]) as u8)
}

/// The nibble path under which a string key is stored.
pub open spec fn key_path(key: Seq<char>) -> Seq<u8> {
    spec_nibbles(encode_utf8(key))
}

/// Every element is a nibble.
pub open spec fn is_nibble_seq(s: Seq<u8>) -> bool {
    forall|i: int| 0 <= i < s.len() ==> #[trigger] s[i] < 16
}

/// Key conversion utilities
pub struct KeyUtils;

/// Path manipulation utilities
pub struct PathUtils;

pub proof fn lemma_byte_split(b: u8)
    ensures
        ((b >> 4u8) << 4u8) | (b & 0x0f) == b,
        b >> 4u8 < 16,
        b & 0x0f < 16,
{
    assert(((b >> 4u8) << 4u8) | (b & 0x0f) == b) by (bit_vector);
    assert(b >> 4u8 < 16) by (bit_vector);
    assert(b & 0x0f < 16) by (bit_vector);
}

/// Packing the nibbles of bytes gives the bytes back.
pub proof fn lemma_pack_nibbles(bytes: Seq<u8>)
    ensures
        spec_pack_nibbles(spec_nibbles(bytes)) == bytes,
        is_nibble_seq(spec_nibbles(bytes)),
        spec_nibbles(bytes).len() == 2 * bytes.len(),
{
    let n = spec_nibbles(bytes);
    assert forall|i: int| 0 <= i < bytes.len() implies spec_pack_nibbles(n)[i] == bytes[i] by {
        lemma_byte_split(bytes[i]);
        assert(n[2 * i] == bytes[i] >> 4);
        assert(n[2 * i + 1] == bytes[i] & 0x0f);
    }
    assert(spec_pack_nibbles(n) =~= bytes);
    assert forall|i: int| 0 <= i < n.len() implies #[trigger] n[i] < 16 by {
        lemma_byte_split(bytes[i / 2]);
    }
}

/// Distinct byte sequences have distinct nibble sequences.
pub proof fn lemma_nibbles_injective(a: Seq<u8>, b: Seq<u8>)
    requires
        spec_nibbles(a) == spec_nibbles(b),
    ensures
        a == b,
{
    lemma_pack_nibbles(a);
    lemma_pack_nibbles(b);
}

/// Distinct keys are stored under distinct paths.
pub proof fn lemma_key_path_injective(a: Seq<char>, b: Seq<char>)
    requires
        key_path(a) == key_path(b),
    ensures
        a == b,
{
    lemma_nibbles_injective(encode_utf8(a), encode_utf8(b));
    encode_utf8_decode_utf8(a);
    encode_utf8_decode_utf8(b);
}

/// A key path is a sequence of nibbles.
pub proof fn lemma_key_path_nibbles(key: Seq<char>)
    ensures
        is_nibble_seq(key_path(key)),
{
    lemma_pack_nibbles(encode_utf8(key));
}

impl KeyUtils {
    /// Convert string key to nibbles (4-bit chunks)
    pub fn string_to_nibbles(key: &str) -> (nibbles: Vec<u8>)
        ensures
            nibbles@ == spec_nibbles(key.spec_bytes()),
            nibbles@ == key_path(key@),
            is_nibble_seq(nibbles@),
    {
        let bytes = key.as_bytes();
        let mut nibbles: Vec<u8> = Vec::new();
        let mut i: usize = 0;
        while i < bytes.len()
            invariant
                i <= bytes@.len(),
                nibbles@ =~= spec_nibbles(bytes@.subrange(0, i as int)),
            decreases bytes@.len() - i,
        {
            let byte = bytes[i];
            nibbles.push(byte >> 4);
            nibbles.push(byte & 0x0F);
            i = i + 1;
            proof {
                let s = bytes@.subrange(0, i as int);
                assert forall|j: int| 0 <= j < 2 * i implies #[trigger] nibbles@[j] == spec_nibbles(s)[j] by {
                    if j < 2 * (i - 1) {
                        assert(bytes@.subrange(0, i - 1)[j / 2] == s[j / 2]);
                    }
                }
                assert(nibbles@ =~= spec_nibbles(s));
            }
        }
        proof {
            assert(bytes@.subrange(0, bytes@.len() as int) =~= bytes@);
            lemma_pack_nibbles(bytes@);
        }
        nibbles
    }

    /// Convert nibbles back to string
    pub fn nibbles_to_string(nibbles: &[u8]) -> (s: String)
        ensures
            s@ == spec_utf8_lossy(spec_pack_nibbles(nibbles@)),
            valid_utf8(spec_pack_nibbles(nibbles@)) ==> s@ == decode_utf8(spec_pack_nibbles(nibbles@)),
    {
        let mut bytes: Vec<u8> = Vec::new();
        let mut i: usize = 0;
        let n = nibbles.len();
        while i + 1 < n
            invariant
                n == nibbles@.len(),
                i % 2 == 0,
                i <= n,
                bytes@.len() == i / 2,
                forall|j: int| 0 <= j < i / 2 ==> #[trigger] bytes@[j] == spec_pack_nibbles(nibbles@)[j],
            decreases n - i,
        {
            let byte = (nibbles[i] << 4) | nibbles[i + 1];
            bytes.push(byte);
            i = i + 2;
        }
        proof {
            assert(bytes@ =~= spec_pack_nibbles(nibbles@));
        }
        utf8_lossy(bytes.as_slice())
    }
}

/// Converting a key to nibbles and back gives the key.
pub proof fn lemma_nibbles_roundtrip(key: Seq<char>)
    ensures
        valid_utf8(spec_pack_nibbles(key_path(key))),
        decode_utf8(spec_pack_nibbles(key_path(key))) == key,
{
    lemma_pack_nibbles(encode_utf8(key));
    encode_utf8_valid_utf8(key);
    encode_utf8_decode_utf8(key);
}

/// The longest common prefix length of two sequences.
pub open spec fn is_common_prefix_len(a: Seq<u8>, b: Seq<u8>, n: int) -> bool {
    &&& 0 <= n <= a.len()
    &&& n <= b.len()
    &&& a.subrange(0, n) == b.subrange(0, n)
    &&& (n == a.len() || n == b.len() || a[n] != b[n])
}

impl PathUtils {
    /// Find the length of the common prefix between two paths
    pub fn common_prefix_length(path1: &[u8], path2: &[u8]) -> (n: usize)
        ensures
            is_common_prefix_len(path1@, path2@, n as int),
    {
        let mut i: usize = 0;
        while i < path1.len() && i < path2.len() && path1[i] == path2[i]
            invariant
                i <= path1@.len(),
                i <= path2@.len(),
                forall|j: int| 0 <= j < i ==> path1@[j] == path2@[j],
            decreases path1@.len() - i,
        {
            i = i + 1;
        }
        assert(path1@.subrange(0, i as int) =~= path2@.subrange(0, i as int));
        i
    }

    /// Split a path at the given index
    pub fn split_at(path: &[u8], index: usize) -> (parts: (&[u8], &[u8]))
        requires
            index <= path@.len(),
        ensures
            parts.0@ == path@.subrange(0, index as int),
            parts.1@ == path@.subrange(index as int, path@.len() as int),
    {
        (vstd::slice::slice_subrange(path, 0, index), vstd::slice::slice_subrange(path, index, path.len()))
    }
}

} // verus!

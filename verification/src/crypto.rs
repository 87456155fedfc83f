//! Ed25519 keys and signatures, base64 text, and random identifiers, as
//! ed25519-dalek, base64, rand and uuid compute them.

use vstd::prelude::*;
use base64::Engine;
use ed25519_dalek::Signer;
use ed25519_dalek::Verifier;
use rand::RngCore;

verus! {

/// The public key of an Ed25519 secret key (its compressed verifying key).
pub uninterp spec fn spec_ed25519_public(secret: Seq<u8>) -> Seq<u8>;

/// The Ed25519 signature of a message under a secret key.
pub uninterp spec fn spec_ed25519_sign(secret: Seq<u8>, message: Seq<u8>) -> Seq<u8>;

/// What `VerifyingKey::from_bytes` makes of 32 public key bytes: a key, or
/// the text of the error.
pub uninterp spec fn spec_ed25519_key(public: Seq<u8>) -> Result<(), Seq<char>>;

/// Whether a signature of a message verifies under the public key.
pub uninterp spec fn spec_ed25519_valid(public: Seq<u8>, message: Seq<u8>, signature: Seq<u8>) -> bool;

/// The view of a key check.
pub open spec fn key_check_view(r: Result<(), String>) -> Result<(), Seq<char>> {
    match r {
        Ok(()) => Ok(()),
        Err(e) => Err(e@),
    }
}

/// The standard base64 text (with padding) of bytes.
pub uninterp spec fn spec_base64_encode(bytes: Seq<u8>) -> Seq<char>;

/// What standard base64 decoding makes of a text: the bytes, or the text of
/// the decoding error.
pub uninterp spec fn spec_base64_decode(text: Seq<char>) -> Result<Seq<u8>, Seq<char>>;

/// The view of a decoding result.
pub open spec fn decoded_view(r: Result<Vec<u8>, String>) -> Result<Seq<u8>, Seq<char>> {
    match r {
        Ok(b) => Ok(b@),
        Err(e) => Err(e@),
    }
}

/// `SigningKey::from_bytes(secret).verifying_key().to_bytes()`: the 32
/// bytes of the public key, named by `spec_ed25519_public`; they make a
/// valid verifying key.
#[verifier::external_body]
pub(crate) fn ed25519_public_key(secret: &[u8]) -> (public: Vec<u8>)
    requires
        secret@.len() == 32,
    ensures
        public@ == spec_ed25519_public(secret@),
        public@.len() == 32,
        spec_ed25519_key(public@) is Ok,
{
    let bytes: [u8; 32] = secret.try_into().unwrap();
    ed25519_dalek::SigningKey::from_bytes(&bytes).verifying_key().to_bytes().to_vec()
}

/// `SigningKey::from_bytes(secret).try_sign(message)`: the 64 bytes of
/// the signature, named by `spec_ed25519_sign`. The crate's `try_sign`
/// never fails, and a signature that a key makes verifies under its
/// public key.
#[verifier::external_body]
pub(crate) fn ed25519_sign(secret: &[u8], message: &[u8]) -> (signature: Option<Vec<u8>>)
    requires
        secret@.len() == 32,
    ensures
        signature is Some,
        signature->0@ == spec_ed25519_sign(secret@, message@),
        signature->0@.len() == 64,
        spec_ed25519_valid(spec_ed25519_public(secret@), message@, signature->0@),
{
    let bytes: [u8; 32] = secret.try_into().unwrap();
    match ed25519_dalek::SigningKey::from_bytes(&bytes).try_sign(message) {
        Ok(s) => Some(s.to_bytes().to_vec()),
        Err(_) => None,
    }
}

/// `VerifyingKey::from_bytes(public)`: whether the bytes are a verifying
/// key, or the text of the error, as named by `spec_ed25519_key`.
#[verifier::external_body]
pub(crate) fn ed25519_key_check(public: &[u8]) -> (check: Result<(), String>)
    requires
        public@.len() == 32,
    ensures
        key_check_view(check) == spec_ed25519_key(public@),
{
    let key: [u8; 32] = public.try_into().unwrap();
    match ed25519_dalek::VerifyingKey::from_bytes(&key) {
        Ok(_) => Ok(()),
        Err(e) => Err(e.to_string()),
    }
}

/// `VerifyingKey::from_bytes(public)` then `verify(message, signature)`:
/// whether the signature verifies, as named by `spec_ed25519_valid`.
#[verifier::external_body]
pub(crate) fn ed25519_verify(public: &[u8], message: &[u8], signature: &[u8]) -> (valid: bool)
    requires
        public@.len() == 32,
        signature@.len() == 64,
        spec_ed25519_key(public@) is Ok,
    ensures
        valid == spec_ed25519_valid(public@, message@, signature@),
{
    let key: [u8; 32] = public.try_into().unwrap();
    let sig: [u8; 64] = signature.try_into().unwrap();
    let verifying_key = ed25519_dalek::VerifyingKey::from_bytes(&key).unwrap();
    verifying_key.verify(message, &ed25519_dalek::Signature::from_bytes(&sig)).is_ok()
}

/// What `SigningKey::from_keypair_bytes` makes of 64 keypair bytes: the
/// 32 secret key bytes of the key, or the text of the error.
pub uninterp spec fn spec_ed25519_keypair(bytes: Seq<u8>) -> Result<Seq<u8>, Seq<char>>;

/// `SigningKey::from_keypair_bytes(bytes)` and the key's `to_bytes()`: the
/// named result; a key, when there is one, is made from the first 32
/// bytes, and there is one whenever the last 32 bytes are the public key
/// of the first 32 (the crate checks exactly that the two halves match).
#[verifier::external_body]
pub(crate) fn ed25519_keypair_secret(bytes: &[u8]) -> (secret: Result<Vec<u8>, String>)
    requires
        bytes@.len() == 64,
    ensures
        decoded_view(secret) == spec_ed25519_keypair(bytes@),
        secret is Ok ==> secret->Ok_0@ == bytes@.subrange(0, 32),
        bytes@.subrange(32, 64) == spec_ed25519_public(bytes@.subrange(0, 32)) ==> secret is Ok,
{
    let pair: [u8; 64] = bytes.try_into().unwrap();
    match ed25519_dalek::SigningKey::from_keypair_bytes(&pair) {
        Ok(k) => Ok(k.to_bytes().to_vec()),
        Err(e) => Err(e.to_string()),
    }
}

/// A character of the standard base64 alphabet, or the padding `=`.
pub open spec fn is_base64_char(c: char) -> bool {
    ||| 'A' <= c <= 'Z'
    ||| 'a' <= c <= 'z'
    ||| '0' <= c <= '9'
    ||| c == '+'
    ||| c == '/'
    ||| c == '='
}

/// `base64::engine::general_purpose::STANDARD.encode`: the named base64
/// text of the bytes, written in the standard alphabet with `=` padding.
/// Decoding that text gives the bytes back.
#[verifier::external_body]
pub(crate) fn base64_encode(bytes: &[u8]) -> (text: String)
    ensures
        text@ == spec_base64_encode(bytes@),
        forall|i: int| 0 <= i < text@.len() ==> is_base64_char(#[trigger] text@[i]),
        spec_base64_decode(text@) is Ok,
        spec_base64_decode(text@)->Ok_0 == bytes@,
{
    base64::engine::general_purpose::STANDARD.encode(bytes)
}

/// `base64::engine::general_purpose::STANDARD.decode`: the named result
/// (the bytes, or the decoding error's text).
#[verifier::external_body]
pub(crate) fn base64_decode(text: &str) -> (bytes: Result<Vec<u8>, String>)
    ensures
        decoded_view(bytes) == spec_base64_decode(text@),
{
    match base64::engine::general_purpose::STANDARD.decode(text) {
        Ok(b) => Ok(b),
        Err(e) => Err(e.to_string()),
    }
}

/// `rand::rngs::OsRng.fill_bytes` on 32 bytes: a random secret key. The
/// bytes come from the operating system; only their number is promised.
#[verifier::external_body]
pub(crate) fn random_secret() -> (secret: Vec<u8>)
    ensures
        secret@.len() == 32,
{
    let mut bytes = [0u8; 32];
    rand::rngs::OsRng.fill_bytes(&mut bytes);
    bytes.to_vec()
}

/// `uuid::Uuid::new_v4().simple()` as text: a random identifier. What
/// holds of every outcome is the simple format's length, 32 hex digits.
#[verifier::external_body]
pub(crate) fn uuid_v4_simple() -> (id: String)
    ensures
        id@.len() == 32,
{
    uuid::Uuid::new_v4().simple().to_string()
}

} // verus!

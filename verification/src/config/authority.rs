//! Network authorities: the keys that sign bootnode certificates.

use vstd::prelude::*;
use crate::crypto::{
    base64_encode, ed25519_public_key, random_secret, spec_base64_decode, spec_base64_encode, spec_ed25519_public,
    spec_ed25519_key, is_base64_char,
};
use crate::text::{spec_trim, is_white_space, lemma_trim_no_white_space};

verus! {

/// An authority's Ed25519 secret key: 32 bytes.
pub struct AuthorityKey {
    secret: Vec<u8>,
}

/// Network authority that can sign bootnode certificates
#[derive(Clone, Debug)]
pub struct NetworkAuthority {
    /// Authority name (e.g., "vc-mainnet-authority")
    pub name: String,
    /// Authority public key for verification (base64 encoded)
    pub public_key: String,
    /// Optional contact information
    pub contact: Option<String>,
}

/// The authority publishes the public key of the secret key: its base64
/// text, which decodes back to the key's bytes.
pub open spec fn publishes_key_of(authority: NetworkAuthority, secret: Seq<u8>) -> bool {
    &&& authority.public_key@ == spec_base64_encode(spec_ed25519_public(secret))
    &&& spec_base64_decode(authority.public_key@) == Ok::<Seq<u8>, Seq<char>>(spec_ed25519_public(secret))
    &&& spec_ed25519_public(secret).len() == 32
    &&& spec_ed25519_key(spec_ed25519_public(secret)) is Ok
}

/// The 64 keypair bytes of a secret key: the secret, then its public key.
pub open spec fn is_keypair_of(bytes: Seq<u8>, secret: Seq<u8>) -> bool {
    &&& bytes.len() == 64
    &&& bytes.subrange(0, 32) == secret
    &&& bytes.subrange(32, 64) == spec_ed25519_public(secret)
}

/// The text of an authority's private key: trimmed, it is itself, and it
/// decodes from base64 to the keypair bytes of the secret.
pub open spec fn is_key_text_of(text: Seq<char>, secret: Seq<u8>) -> bool {
    &&& spec_trim(text) == text
    &&& spec_base64_decode(text) is Ok
    &&& is_keypair_of(spec_base64_decode(text)->Ok_0, secret)
}

impl AuthorityKey {
    #[verifier::type_invariant]
    spec fn inv(&self) -> bool {
        self.secret@.len() == 32
    }

    /// The secret key bytes.
    pub closed spec fn spec_secret(&self) -> Seq<u8> {
        self.secret@
    }

    /// The key with the given secret bytes, if there are 32 of them.
    pub fn from_bytes(bytes: &[u8]) -> (key: Option<Self>)
        ensures
            key is Some <==> bytes@.len() == 32,
            key matches Some(k) ==> k.spec_secret() == bytes@,
    {
        if bytes.len() == 32 {
            Some(AuthorityKey { secret: vstd::slice::slice_to_vec(bytes) })
        } else {
            None
        }
    }

    /// The secret key bytes.
    pub fn to_bytes(&self) -> (bytes: Vec<u8>)
        ensures
            bytes@ == self.spec_secret(),
            bytes@.len() == 32,
    {
        proof {
            use_type_invariant(self);
        }
        crate::mpt::node::copy_bytes(&self.secret)
    }

    /// The 64 keypair bytes: the secret key, then its public key.
    pub fn to_keypair_bytes(&self) -> (bytes: Vec<u8>)
        ensures
            is_keypair_of(bytes@, self.spec_secret()),
    {
        proof {
            use_type_invariant(self);
        }
        let mut bytes = crate::mpt::node::copy_bytes(&self.secret);
        let mut public = ed25519_public_key(self.secret.as_slice());
        bytes.append(&mut public);
        proof {
            assert(bytes@.subrange(0, 32) =~= self.secret@);
            assert(bytes@.subrange(32, 64) =~= spec_ed25519_public(self.secret@));
        }
        bytes
    }

    /// The text in which the private key is kept: the base64 text of the
    /// keypair bytes.
    pub fn to_key_text(&self) -> (text: String)
        ensures
            is_key_text_of(text@, self.spec_secret()),
    {
        let bytes = self.to_keypair_bytes();
        let text = base64_encode(bytes.as_slice());
        proof {
            assert forall|i: int| 0 <= i < text@.len() implies !is_white_space(#[trigger] text@[i]) by {
                assert(is_base64_char(text@[i]));
            }
            lemma_trim_no_white_space(text@);
        }
        text
    }
}

impl NetworkAuthority {
    /// Create a new network authority with a fresh random key.
    pub fn new(name: String) -> (res: (Self, AuthorityKey))
        ensures
            res.0.name == name,
            res.0.contact is None,
            publishes_key_of(res.0, res.1.spec_secret()),
    {
        // Generate a random secret key
        let secret = random_secret();
        let public = ed25519_public_key(secret.as_slice());
        let public_key = base64_encode(public.as_slice());
        let authority = Self { name, public_key, contact: None };
        (authority, AuthorityKey { secret })
    }
}

} // verus!

//! Bootnode certificates: signed by a network authority, checked against
//! the trusted authorities of a node.

use vstd::prelude::*;
use vstd::string::*;
use vstd::utf8::encode_utf8;
use crate::clock::{now_unix_seconds, latest_clock_second, is_clock_second, utc_text, spec_utc_text, opt_text};
use crate::config::authority::{AuthorityKey, NetworkAuthority, publishes_key_of};
use crate::crypto::{
    base64_decode, base64_encode, ed25519_key_check, ed25519_sign, ed25519_verify, spec_base64_decode,
    spec_base64_encode, spec_ed25519_key, spec_ed25519_public, spec_ed25519_sign, spec_ed25519_valid,
};
use crate::error::BlockchainError;
use crate::text::{dec_chars, signed_dec_chars, u64_to_string, i64_to_string};

verus! {

/// Bootnode certificate signed by a network authority
#[derive(Clone, Debug)]
pub struct BootnodeCertificate {
    /// Bootnode's node ID
    pub node_id: String,
    /// Network ID this bootnode serves
    pub network_id: String,
    /// Chain ID this bootnode serves
    pub chain_id: u64,
    /// Bootnode's HTTP endpoint
    pub http_url: String,
    /// Bootnode's P2P multiaddr
    pub p2p_multiaddr: String,
    /// Certificate expiry timestamp (Unix timestamp)
    pub expires_at: i64,
    /// Authority signature (base64 encoded)
    pub signature: String,
}

/// The message that is signed: all fields but the signature, separated by
/// commas.
pub open spec fn signing_text(c: BootnodeCertificate) -> Seq<char> {
    c.node_id@ + ","@ + c.network_id@ + ","@ + dec_chars(c.chain_id as nat) + ","@ + c.http_url@ + ","@
        + c.p2p_multiaddr@ + ","@ + signed_dec_chars(c.expires_at as int)
}

/// The first authority with the given name.
pub open spec fn first_authority(auths: Seq<NetworkAuthority>, name: Seq<char>) -> Option<NetworkAuthority>
    decreases auths.len(),
{
    if auths.len() == 0 {
        None
    } else if auths[0].name@ == name {
        Some(auths[0])
    } else {
        first_authority(auths.drop_first(), name)
    }
}

/// The name of the authority of a network.
pub open spec fn authority_name(network_id: Seq<char>) -> Seq<char> {
    network_id + "-authority"@
}

/// What checking a certificate against trusted authorities at time `now`
/// gives: nothing wrong, or the message of the first thing that is.
pub open spec fn certificate_check(c: BootnodeCertificate, auths: Seq<NetworkAuthority>, now: i64) -> Result<
    (),
    Seq<char>,
> {
    if c.expires_at <= now {
        Err("Certificate has expired"@)
    } else {
        match first_authority(auths, authority_name(c.network_id@)) {
            None => Err("No trusted authority found for network: "@ + c.network_id@),
            Some(a) => match spec_base64_decode(a.public_key@) {
                Err(e) => Err("Invalid public key: "@ + e),
                Ok(pk) => if pk.len() != 32 {
                    Err("Invalid public key length"@)
                } else {
                    match spec_ed25519_key(pk) {
                        Err(e) => Err("Invalid verifying key: "@ + e),
                        Ok(_) => match spec_base64_decode(c.signature@) {
                            Err(e) => Err("Invalid signature: "@ + e),
                            Ok(sig) => if sig.len() != 64 {
                                Err("Invalid signature length"@)
                            } else if spec_ed25519_valid(pk, encode_utf8(signing_text(c)), sig) {
                                Ok(())
                            } else {
                                Err("Certificate signature verification failed"@)
                            },
                        },
                    }
                },
            },
        }
    }
}

/// The certificate carries a signature of its message made with the secret
/// key: the base64 text of the signature, which decodes back to it, and
/// which verifies under the key's public key.
pub open spec fn signed_with(c: BootnodeCertificate, secret: Seq<u8>) -> bool {
    let sig = spec_ed25519_sign(secret, encode_utf8(signing_text(c)));
    &&& c.signature@ == spec_base64_encode(sig)
    &&& spec_base64_decode(c.signature@) == Ok::<Seq<u8>, Seq<char>>(sig)
    &&& sig.len() == 64
    &&& spec_ed25519_valid(spec_ed25519_public(secret), encode_utf8(signing_text(c)), sig)
}

/// A certificate signed with an authority's key passes the check against
/// trusted authorities whose first authority of the certificate's network
/// is that authority, as long as the certificate has not expired.
pub proof fn lemma_signed_certificate_verifies(
    c: BootnodeCertificate,
    secret: Seq<u8>,
    authority: NetworkAuthority,
    auths: Seq<NetworkAuthority>,
    now: i64,
)
    requires
        secret.len() == 32,
        signed_with(c, secret),
        publishes_key_of(authority, secret),
        first_authority(auths, authority_name(c.network_id@)) == Some(authority),
        c.expires_at > now,
    ensures
        certificate_check(c, auths, now) is Ok,
{
}

impl BootnodeCertificate {
    /// Create a new certificate for signing
    pub fn new(
        node_id: String,
        network_id: String,
        chain_id: u64,
        http_url: String,
        p2p_multiaddr: String,
        expires_at: i64,
    ) -> (cert: Self)
        ensures
            cert.node_id == node_id,
            cert.network_id == network_id,
            cert.chain_id == chain_id,
            cert.http_url == http_url,
            cert.p2p_multiaddr == p2p_multiaddr,
            cert.expires_at == expires_at,
            cert.signature@ == Seq::<char>::empty(),
    {
        Self { node_id, network_id, chain_id, http_url, p2p_multiaddr, expires_at, signature: String::new() }
    }

    /// Generate the message to be signed (all fields except signature)
    pub fn signing_message(&self) -> (message: String)
        ensures
            message@ == signing_text(*self),
    {
        let mut message = String::from_str(self.node_id.as_str());
        message.append(",");
        message.append(self.network_id.as_str());
        message.append(",");
        message.append(u64_to_string(self.chain_id).as_str());
        message.append(",");
        message.append(self.http_url.as_str());
        message.append(",");
        message.append(self.p2p_multiaddr.as_str());
        message.append(",");
        message.append(i64_to_string(self.expires_at).as_str());
        message
    }

    /// Sign the certificate with an authority's private key
    pub fn sign(&mut self, signing_key: &AuthorityKey) -> (res: Result<(), BlockchainError>)
        ensures
            res is Ok,
            final(self).node_id == old(self).node_id,
            final(self).network_id == old(self).network_id,
            final(self).chain_id == old(self).chain_id,
            final(self).http_url == old(self).http_url,
            final(self).p2p_multiaddr == old(self).p2p_multiaddr,
            final(self).expires_at == old(self).expires_at,
            signed_with(*final(self), signing_key.spec_secret()),
    {
        let message = self.signing_message();
        let secret = signing_key.to_bytes();
        match ed25519_sign(secret.as_slice(), message.as_str().as_bytes()) {
            Some(signature) => {
                self.signature = base64_encode(signature.as_slice());
                Ok(())
            },
            None => Err(BlockchainError::InvalidInput(String::from_str("Failed to sign certificate"))),
        }
    }

    /// Verify the certificate signature against trusted authorities: the
    /// check at the clock's current time, which lies between the Unix epoch
    /// and chrono's latest instant. So a certificate expiring after that
    /// instant gets the check's answer whatever the clock reads, and one
    /// expiring at or before the epoch has expired.
    pub fn verify(&self, trusted_authorities: &[NetworkAuthority]) -> (res: Result<(), BlockchainError>)
        ensures
            exists|now: i64| #[trigger]
                is_clock_second(now) && match certificate_check(*self, trusted_authorities@, now) {
                    Ok(()) => res is Ok,
                    Err(m) => res matches Err(BlockchainError::InvalidInput(x)) && x@ == m,
                },
            self.expires_at > latest_clock_second() ==> match certificate_check(
                *self,
                trusted_authorities@,
                latest_clock_second(),
            ) {
                Ok(()) => res is Ok,
                Err(m) => res matches Err(BlockchainError::InvalidInput(x)) && x@ == m,
            },
            self.expires_at <= 0 ==> (res matches Err(BlockchainError::InvalidInput(x)) && x@
                == "Certificate has expired"@),
    {
        let now = now_unix_seconds();
        proof {
            if self.expires_at > latest_clock_second() {
                assert(certificate_check(*self, trusted_authorities@, now) == certificate_check(
                    *self,
                    trusted_authorities@,
                    latest_clock_second(),
                ));
            }
        }
        self.verify_at(trusted_authorities, now)
    }

    /// Verify the certificate signature against trusted authorities, at
    /// the given time.
    pub fn verify_at(&self, trusted_authorities: &[NetworkAuthority], now: i64) -> (res: Result<(), BlockchainError>)
        ensures
            match certificate_check(*self, trusted_authorities@, now) {
                Ok(()) => res is Ok,
                Err(m) => res matches Err(BlockchainError::InvalidInput(x)) && x@ == m,
            },
    {
        if self.is_expired_at(now) {
            return Err(BlockchainError::InvalidInput(String::from_str("Certificate has expired")));
        }
        // Find the authority that matches this network
        let mut name = String::from_str(self.network_id.as_str());
        name.append("-authority");
        let mut found: Option<usize> = None;
        let mut i: usize = 0;
        assert(trusted_authorities@.subrange(0, trusted_authorities@.len() as int) =~= trusted_authorities@);
        while i < trusted_authorities.len()
            invariant_except_break
                found is None,
            invariant
                i <= trusted_authorities@.len(),
                name@ == authority_name(self.network_id@),
                first_authority(trusted_authorities@, name@) == first_authority(
                    trusted_authorities@.subrange(i as int, trusted_authorities@.len() as int),
                    name@,
                ),
            ensures
                found matches Some(j) ==> j < trusted_authorities@.len() && first_authority(
                    trusted_authorities@,
                    name@,
                ) == Some(trusted_authorities@[j as int]),
                found is None ==> first_authority(trusted_authorities@, name@) is None,
            decreases trusted_authorities@.len() - i,
        {
            let ghost rest = trusted_authorities@.subrange(i as int, trusted_authorities@.len() as int);
            assert(rest.drop_first() =~= trusted_authorities@.subrange(i + 1, trusted_authorities@.len() as int));
            assert(rest[0] == trusted_authorities@[i as int]);
            if trusted_authorities[i].name == name {
                found = Some(i);
                break;
            }
            i = i + 1;
        }
        let authority = match found {
            Some(j) => &trusted_authorities[j],
            None => {
                let mut m = String::from_str("No trusted authority found for network: ");
                m.append(self.network_id.as_str());
                return Err(BlockchainError::InvalidInput(m));
            },
        };
        // Decode the public key
        let public_key_bytes = match base64_decode(authority.public_key.as_str()) {
            Ok(b) => b,
            Err(e) => {
                let mut m = String::from_str("Invalid public key: ");
                m.append(e.as_str());
                return Err(BlockchainError::InvalidInput(m));
            },
        };
        if public_key_bytes.len() != 32 {
            return Err(BlockchainError::InvalidInput(String::from_str("Invalid public key length")));
        }
        match ed25519_key_check(public_key_bytes.as_slice()) {
            Ok(()) => {},
            Err(e) => {
                let mut m = String::from_str("Invalid verifying key: ");
                m.append(e.as_str());
                return Err(BlockchainError::InvalidInput(m));
            },
        }
        // Decode the signature
        let signature_bytes = match base64_decode(self.signature.as_str()) {
            Ok(b) => b,
            Err(e) => {
                let mut m = String::from_str("Invalid signature: ");
                m.append(e.as_str());
                return Err(BlockchainError::InvalidInput(m));
            },
        };
        if signature_bytes.len() != 64 {
            return Err(BlockchainError::InvalidInput(String::from_str("Invalid signature length")));
        }
        // Verify the signature
        let message = self.signing_message();
        if ed25519_verify(public_key_bytes.as_slice(), message.as_str().as_bytes(), signature_bytes.as_slice()) {
            Ok(())
        } else {
            Err(BlockchainError::InvalidInput(String::from_str("Certificate signature verification failed")))
        }
    }

    /// Check if the certificate has expired: `is_expired_at` with the
    /// clock's current time, which lies between the Unix epoch and chrono's
    /// latest instant. So a certificate expiring at or before the epoch has
    /// expired, and one expiring after that instant has not.
    pub fn is_expired(&self) -> (expired: bool)
        ensures
            exists|now: i64| #[trigger] is_clock_second(now) && expired == (self.expires_at <= now),
            self.expires_at <= 0 ==> expired,
            self.expires_at > latest_clock_second() ==> !expired,
    {
        let now = now_unix_seconds();
        self.is_expired_at(now)
    }

    /// The certificate's expiry as date and time text in UTC (such as
    /// `2015-05-15 00:00:00 UTC`), or nothing when the time is out of
    /// chrono's range.
    pub fn expiry_text(&self) -> (text: Option<String>)
        ensures
            opt_text(text) == spec_utc_text(self.expires_at),
    {
        utc_text(self.expires_at)
    }

    /// Whether the certificate has expired at the given time.
    pub fn is_expired_at(&self, now: i64) -> (expired: bool)
        ensures
            expired == (self.expires_at <= now),
    {
        self.expires_at <= now
    }
}

} // verus!

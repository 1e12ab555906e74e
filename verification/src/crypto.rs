//! The library's trusted boundary to the hashing and Ed25519 crates.

use vstd::prelude::*;

use ed25519_dalek::{Signature, Signer, SigningKey, Verifier, VerifyingKey};
use sha2::{Digest, Sha256};

verus! {

/// SHA-256 digest of a byte string.
pub uninterp spec fn sha256(data: Seq<u8>) -> Seq<u8>;

/// The Ed25519 signature that the 32-byte secret key `secret` makes over `msg`.
pub uninterp spec fn ed25519_signature(secret: Seq<u8>, msg: Seq<u8>) -> Seq<u8>;

/// The 32-byte Ed25519 public key that belongs to the secret key `secret`.
pub uninterp spec fn ed25519_public_key(secret: Seq<u8>) -> Seq<u8>;

/// Whether `sig` is a valid Ed25519 signature over `msg` under the public key `pubkey`.
pub uninterp spec fn ed25519_verifies(pubkey: Seq<u8>, msg: Seq<u8>, sig: Seq<u8>) -> bool;

/// `None` when `pubkey` decodes to an Ed25519 public key, else the error's text.
pub uninterp spec fn ed25519_pubkey_error(pubkey: Seq<u8>) -> Option<Seq<char>>;

/// Calls `sha2::Sha256::digest` on `data`. Claimed: the 32 bytes returned are the
/// SHA-256 digest of `data` (a deterministic function of the bytes alone).
#[verifier::external_body]
pub(crate) fn sha256_digest(data: &[u8]) -> (r: [u8; 32])
    ensures
        r@ == sha256(data@),
{
    Sha256::digest(data).into()
}

/// The public key of the key whose secret bytes are `secret`, through
/// `ed25519_dalek::SigningKey::from_bytes`, `verifying_key` and `to_bytes`. Claimed: the
/// 32 bytes are a function of the secret alone (the key is derived from it), and they
/// decode as a public key (they are the compressed form of a curve point).
#[verifier::external_body]
pub(crate) fn ed25519_public_key_bytes(secret: &[u8; 32]) -> (r: [u8; 32])
    ensures
        r@ == ed25519_public_key(secret@),
        ed25519_pubkey_error(r@).is_none(),
{
    SigningKey::from_bytes(secret).verifying_key().to_bytes()
}

/// Signs `msg` with the key whose secret bytes are `secret`, through
/// `ed25519_dalek::SigningKey::from_bytes` and `Signer::sign`. Claimed: the 64
/// signature bytes are a function of the secret and the message alone (Ed25519
/// signing is deterministic), and the signature verifies over `msg` under the public
/// key that belongs to the secret.
#[verifier::external_body]
pub(crate) fn ed25519_sign(secret: &[u8; 32], msg: &[u8]) -> (r: [u8; 64])
    ensures
        r@ == ed25519_signature(secret@, msg@),
        ed25519_verifies(ed25519_public_key(secret@), msg@, r@),
{
    SigningKey::from_bytes(secret).sign(msg).to_bytes()
}

/// Decodes `pubkey` with `ed25519_dalek::VerifyingKey::from_bytes` and renders its
/// error, if any, with `to_string`. Claimed: the outcome is a function of the
/// 32 bytes alone.
#[verifier::external_body]
pub(crate) fn ed25519_pubkey_check(pubkey: &[u8; 32]) -> (r: Option<String>)
    ensures
        match r {
            Some(text) => ed25519_pubkey_error(pubkey@) == Some(text@),
            None => ed25519_pubkey_error(pubkey@).is_none(),
        },
{
    match VerifyingKey::from_bytes(pubkey) {
        Ok(_) => None,
        Err(e) => Some(e.to_string()),
    }
}

/// Checks `sig` over `msg` with `ed25519_dalek::VerifyingKey::verify` under the key
/// decoded from `pubkey` (which must decode). Claimed: the answer is a function of
/// the three byte strings alone.
#[verifier::external_body]
pub(crate) fn ed25519_verify(pubkey: &[u8; 32], msg: &[u8], sig: &[u8; 64]) -> (r: bool)
    requires
        ed25519_pubkey_error(pubkey@).is_none(),
    ensures
        r == ed25519_verifies(pubkey@, msg@, sig@),
{
    match VerifyingKey::from_bytes(pubkey) {
        Ok(key) => key.verify(msg, &Signature::from_bytes(sig)).is_ok(),
        Err(_) => false,
    }
}

} // verus!

use vstd::prelude::*;

use vstd::utf8::encode_utf8;

use crate::crypto::{
    ed25519_pubkey_check, ed25519_pubkey_error, ed25519_public_key, ed25519_sign,
    ed25519_signature, ed25519_verifies, ed25519_public_key_bytes, ed25519_verify, sha256, sha256_digest,
};
use crate::message::errors::SignError;
use crate::message::types::TransactionEnvelope;

verus! {

/// Big-endian bytes of a `u64`, most significant first.
pub open spec fn u64_be_bytes(x: u64) -> Seq<u8> {
    seq![
        ((x >> 56u64) & 0xff) as u8,
        ((x >> 48u64) & 0xff) as u8,
        ((x >> 40u64) & 0xff) as u8,
        ((x >> 32u64) & 0xff) as u8,
        ((x >> 24u64) & 0xff) as u8,
        ((x >> 16u64) & 0xff) as u8,
        ((x >> 8u64) & 0xff) as u8,
        (x & 0xff) as u8,
    ]
}

/// The bytes an envelope's signature covers: origin key, big-endian timestamp and
/// the UTF-8 bytes of the XDR payload.
pub open spec fn signed_payload(env: TransactionEnvelope) -> Seq<u8> {
    env.origin_pubkey@ + u64_be_bytes(env.timestamp) + encode_utf8(env.tx_xdr@)
}

/// The digest that is actually signed.
pub open spec fn payload_hash(env: TransactionEnvelope) -> Seq<u8> {
    sha256(signed_payload(env))
}

/// What `verify_signature` answers for an envelope.
pub open spec fn verification_outcome(env: TransactionEnvelope) -> Result<bool, Option<Seq<char>>> {
    match ed25519_pubkey_error(env.origin_pubkey@) {
        Some(text) => Err(Some(text)),
        None => if ed25519_verifies(env.origin_pubkey@, payload_hash(env), env.signature@) {
            Ok(true)
        } else {
            Err(None)
        },
    }
}

fn push_u64_be(buf: &mut Vec<u8>, x: u64)
    ensures
        final(buf)@ == old(buf)@ + u64_be_bytes(x),
{
    buf.push(((x >> 56u64) & 0xff) as u8);
    buf.push(((x >> 48u64) & 0xff) as u8);
    buf.push(((x >> 40u64) & 0xff) as u8);
    buf.push(((x >> 32u64) & 0xff) as u8);
    buf.push(((x >> 24u64) & 0xff) as u8);
    buf.push(((x >> 16u64) & 0xff) as u8);
    buf.push(((x >> 8u64) & 0xff) as u8);
    buf.push((x & 0xff) as u8);
    assert(final(buf)@ =~= old(buf)@ + u64_be_bytes(x));
}

fn push_bytes(buf: &mut Vec<u8>, bytes: &[u8])
    ensures
        final(buf)@ == old(buf)@ + bytes@,
{
    let mut i: usize = 0;
    while i < bytes.len()
        invariant
            i <= bytes@.len(),
            buf@ == old(buf)@ + bytes@.take(i as int),
        decreases bytes@.len() - i,
    {
        buf.push(bytes[i]);
        assert(bytes@.take(i + 1) =~= bytes@.take(i as int).push(bytes@[i as int]));
        i = i + 1;
    }
    assert(bytes@.take(bytes@.len() as int) =~= bytes@);
}

fn signed_payload_bytes(envelope: &TransactionEnvelope) -> (r: Vec<u8>)
    ensures
        r@ == signed_payload(*envelope),
{
    let mut buf: Vec<u8> = Vec::new();
    push_bytes(&mut buf, &envelope.origin_pubkey);
    push_u64_be(&mut buf, envelope.timestamp);
    let xdr: &str = envelope.tx_xdr.as_str();
    push_bytes(&mut buf, xdr.as_bytes());
    assert(buf@ =~= signed_payload(*envelope));
    buf
}

fn generate_payload_hash(envelope: &TransactionEnvelope) -> (r: [u8; 32])
    ensures
        r@ == payload_hash(*envelope),
{
    let payload = signed_payload_bytes(envelope);
    sha256_digest(payload.as_slice())
}

/// The Ed25519 public key that belongs to the secret key `secret`; it always decodes.
pub fn public_key_of(secret: &[u8; 32]) -> (r: [u8; 32])
    ensures
        r@ == ed25519_public_key(secret@),
        ed25519_pubkey_error(r@).is_none(),
{
    ed25519_public_key_bytes(secret)
}

/// Signs the envelope's payload hash with the key whose secret bytes are `secret` and
/// stores the signature. Every other field is left as it was; signing always succeeds.
/// An envelope whose origin key is that key's public key (and decodes) verifies
/// afterwards.
pub fn sign_envelope(secret: &[u8; 32], envelope: &mut TransactionEnvelope) -> (r: Result<
    (),
    SignError,
>)
    ensures
        r is Ok,
        final(envelope).signature@ == ed25519_signature(secret@, payload_hash(*old(envelope))),
        old(envelope).origin_pubkey@ == ed25519_public_key(secret@) && ed25519_pubkey_error(
            old(envelope).origin_pubkey@,
        ).is_none() ==> verification_outcome(*final(envelope)) == Ok::<bool, Option<Seq<char>>>(
            true,
        ),
        final(envelope).message_id == old(envelope).message_id,
        final(envelope).origin_pubkey == old(envelope).origin_pubkey,
        final(envelope).tx_xdr == old(envelope).tx_xdr,
        final(envelope).ttl_hops == old(envelope).ttl_hops,
        final(envelope).timestamp == old(envelope).timestamp,
{
    let hash = generate_payload_hash(envelope);
    let signature = ed25519_sign(secret, &hash);
    envelope.signature = signature;
    assert(payload_hash(*envelope) == payload_hash(*old(envelope)));
    Ok(())
}

/// Checks the envelope's signature against its origin key over its payload hash.
/// A key that does not decode gives `MalformedPublicKey` with the decoder's text;
/// a signature that does not verify gives `InvalidSignature`; otherwise `Ok(true)`.
pub fn verify_signature(envelope: &TransactionEnvelope) -> (r: Result<bool, SignError>)
    ensures
        match verification_outcome(*envelope) {
            Ok(b) => r == Ok::<bool, SignError>(b),
            Err(Some(text)) => r matches Err(SignError::MalformedPublicKey(s)) && s@ == text,
            Err(None) => r matches Err(SignError::InvalidSignature),
        },
{
    if let Some(text) = ed25519_pubkey_check(&envelope.origin_pubkey) {
        return Err(SignError::MalformedPublicKey(text));
    }
    let hash = generate_payload_hash(envelope);
    if ed25519_verify(&envelope.origin_pubkey, &hash, &envelope.signature) {
        Ok(true)
    } else {
        Err(SignError::InvalidSignature)
    }
}

} // verus!

use ed25519_dalek::SigningKey;
use rand::rngs::OsRng;
use stellarconduit_core::message::{
    errors::SignError,
    signing::{public_key_of, sign_envelope, verify_signature},
    types::TransactionEnvelope,
};

fn make_test_envelope(keypair: &SigningKey, tx_xdr: &str) -> TransactionEnvelope {
    TransactionEnvelope {
        message_id: [0u8; 32],
        origin_pubkey: keypair.verifying_key().to_bytes(),
        tx_xdr: tx_xdr.to_string(),
        ttl_hops: 10,
        timestamp: 1672531200,
        signature: [0u8; 64],
    }
}

#[test]
fn test_sign_and_verify_success() {
    let mut csprng = OsRng;
    let keypair = SigningKey::generate(&mut csprng);
    let mut envelope = make_test_envelope(&keypair, "AAAAAQAAAAAAAAAA");

    sign_envelope(&keypair.to_bytes(), &mut envelope).expect("signing should succeed");
    let result = verify_signature(&envelope).expect("verification should succeed");
    assert!(result, "signature should be valid");
}

#[test]
fn test_verify_tampered_tx_xdr() {
    let mut csprng = OsRng;
    let keypair = SigningKey::generate(&mut csprng);
    let mut envelope = make_test_envelope(&keypair, "AAAAAQAAAAAAAAAA");

    sign_envelope(&keypair.to_bytes(), &mut envelope).expect("signing should succeed");

    // Tamper with the payload after signing
    envelope.tx_xdr = "TAMPERED_PAYLOAD_XDR".to_string();

    let result = verify_signature(&envelope);
    assert!(
        result.is_err(),
        "verification should fail due to tampered tx_xdr"
    );
}

#[test]
fn test_verify_tampered_timestamp() {
    let mut csprng = OsRng;
    let keypair = SigningKey::generate(&mut csprng);
    let mut envelope = make_test_envelope(&keypair, "AAAAAQAAAAAAAAAA");

    sign_envelope(&keypair.to_bytes(), &mut envelope).expect("signing should succeed");

    // Tamper with the timestamp after signing
    envelope.timestamp += 1;

    let result = verify_signature(&envelope);
    assert!(
        result.is_err(),
        "verification should fail due to tampered timestamp"
    );
}

#[test]
fn test_verify_wrong_key() {
    let mut csprng = OsRng;
    let keypair_a = SigningKey::generate(&mut csprng);
    let keypair_b = SigningKey::generate(&mut csprng);

    let mut envelope = make_test_envelope(&keypair_a, "AAAAAQAAAAAAAAAA");
    // Sign with key A but put key B's pubkey as origin
    sign_envelope(&keypair_a.to_bytes(), &mut envelope).expect("signing should succeed");
    // Swap the pubkey to a different one
    envelope.origin_pubkey = keypair_b.verifying_key().to_bytes();

    let result = verify_signature(&envelope);
    assert!(
        result.is_err(),
        "verification should fail when origin_pubkey doesn't match signing key"
    );
}

#[test]
fn test_verify_invalid_signature() {
    let mut csprng = OsRng;
    let keypair = SigningKey::generate(&mut csprng);
    let mut envelope = make_test_envelope(&keypair, "AAAAAQAAAAAAAAAA");

    sign_envelope(&keypair.to_bytes(), &mut envelope).expect("signing should succeed");

    // Corrupt the signature bytes
    envelope.signature[0] ^= 0xFF;
    envelope.signature[1] ^= 0xFF;

    let result = verify_signature(&envelope);
    assert!(
        result.is_err(),
        "verification should fail with corrupted signature bytes"
    );
}

// ──── error variants and unchanged fields ────────────────────────────────────

#[test]
fn test_sign_leaves_other_fields_unchanged() {
    let mut csprng = OsRng;
    let keypair = SigningKey::generate(&mut csprng);
    let mut envelope = make_test_envelope(&keypair, "AAAAAQAAAAAAAAAA");
    let before = envelope.clone();
    sign_envelope(&keypair.to_bytes(), &mut envelope).expect("signing should succeed");
    assert_eq!(envelope.message_id, before.message_id);
    assert_eq!(envelope.origin_pubkey, before.origin_pubkey);
    assert_eq!(envelope.tx_xdr, before.tx_xdr);
    assert_eq!(envelope.ttl_hops, before.ttl_hops);
    assert_eq!(envelope.timestamp, before.timestamp);
    assert_ne!(envelope.signature, [0u8; 64], "a signature was stored");
}

#[test]
fn test_signing_is_deterministic() {
    let mut csprng = OsRng;
    let keypair = SigningKey::generate(&mut csprng);
    let mut a = make_test_envelope(&keypair, "AAAAAQAAAAAAAAAA");
    let mut b = make_test_envelope(&keypair, "AAAAAQAAAAAAAAAA");
    sign_envelope(&keypair.to_bytes(), &mut a).unwrap();
    sign_envelope(&keypair.to_bytes(), &mut b).unwrap();
    assert_eq!(a.signature, b.signature);
}

#[test]
fn test_tampering_gives_invalid_signature_error() {
    let mut csprng = OsRng;
    let keypair = SigningKey::generate(&mut csprng);
    let mut envelope = make_test_envelope(&keypair, "AAAAAQAAAAAAAAAA");
    sign_envelope(&keypair.to_bytes(), &mut envelope).unwrap();
    envelope.timestamp += 1;
    assert!(matches!(verify_signature(&envelope), Err(SignError::InvalidSignature)));
}

#[test]
fn test_undecodable_origin_key_gives_malformed_public_key() {
    let mut found = false;
    for y in 0u8..32 {
        let mut envelope = TransactionEnvelope {
            message_id: [0u8; 32],
            origin_pubkey: [0u8; 32],
            tx_xdr: "AAAA".to_string(),
            ttl_hops: 1,
            timestamp: 0,
            signature: [0u8; 64],
        };
        envelope.origin_pubkey[0] = y;
        if let Err(SignError::MalformedPublicKey(text)) = verify_signature(&envelope) {
            assert!(!text.is_empty());
            found = true;
        }
    }
    assert!(found, "some small y coordinate is not on the curve");
}

#[test]
fn test_public_key_of_matches_the_signing_key() {
    let mut csprng = OsRng;
    let keypair = SigningKey::generate(&mut csprng);
    assert_eq!(public_key_of(&keypair.to_bytes()), keypair.verifying_key().to_bytes());
}

#[test]
fn test_envelope_signed_with_fixed_secret_verifies() {
    let secret = [7u8; 32];
    let mut envelope = TransactionEnvelope {
        message_id: [3u8; 32],
        origin_pubkey: public_key_of(&secret),
        tx_xdr: "AAAAAQAAAAAAAAAA".to_string(),
        ttl_hops: 4,
        timestamp: 1672531200,
        signature: [0u8; 64],
    };
    sign_envelope(&secret, &mut envelope).unwrap();
    assert!(verify_signature(&envelope).unwrap());
    let mut other = envelope.clone();
    sign_envelope(&[8u8; 32], &mut other).unwrap();
    assert_ne!(other.signature, envelope.signature, "the signature depends on the secret");
    assert!(matches!(verify_signature(&other), Err(SignError::InvalidSignature)));
}

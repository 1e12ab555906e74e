use vstd::prelude::*;

verus! {

/// Why signing or checking an envelope's signature failed.
#[derive(Debug)]
pub enum SignError {
    /// The signature does not verify under the envelope's origin key.
    InvalidSignature,
    /// The origin key is not a valid Ed25519 public key; the text says why.
    MalformedPublicKey(String),
}

} // verus!

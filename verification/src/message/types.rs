use vstd::prelude::*;

verus! {

/// A Stellar transaction travelling through the mesh.
#[derive(Debug, Clone, PartialEq)]
pub struct TransactionEnvelope {
    /// Unique identifier for this message (usually hash of the payload)
    pub message_id: [u8; 32],
    /// The public key of the device that originally created this message
    pub origin_pubkey: [u8; 32],
    /// The actual base64-encoded Stellar XDR transaction envelope
    pub tx_xdr: String,
    /// Time-to-live in hops. Decremented by 1 at each hop. Drops when 0.
    pub ttl_hops: u8,
    /// Unix timestamp when the message was created
    pub timestamp: u64,
    /// Ed25519 signature of the payload by the `origin_pubkey`
    pub signature: [u8; 64],
}

/// A peer's announcement of its direct neighbours and its distance to a relay.
#[derive(Debug, Clone, PartialEq)]
pub struct TopologyUpdate {
    pub origin_pubkey: [u8; 32],
    pub directly_connected_peers: Vec<[u8; 32]>,
    pub hops_to_relay: u8,
}

/// Anti-entropy pull request: the 4-byte prefixes of the message ids the sender holds.
#[derive(Debug, Clone, PartialEq)]
pub struct SyncRequest {
    pub known_message_ids: Vec<[u8; 4]>,
}

/// Answer to a `SyncRequest`: the envelopes the requester lacks.
#[derive(Debug, Clone, PartialEq)]
pub struct SyncResponse {
    pub missing_envelopes: Vec<TransactionEnvelope>,
}

/// Everything peers say to each other over a transport.
#[derive(Debug, Clone, PartialEq)]
pub enum ProtocolMessage {
    /// A new or propagated transaction envelope
    Transaction(TransactionEnvelope),
    /// A topology heartbeat or routing table update
    TopologyUpdate(TopologyUpdate),
    /// A query asking for specific missing messages (for pull-based gossip)
    SyncRequest(SyncRequest),
}

impl TransactionEnvelope {
    /// A field-for-field copy of this envelope.
    pub fn copy(&self) -> (r: Self)
        ensures
            r == *self,
    {
        TransactionEnvelope {
            message_id: self.message_id,
            origin_pubkey: self.origin_pubkey,
            tx_xdr: self.tx_xdr.clone(),
            ttl_hops: self.ttl_hops,
            timestamp: self.timestamp,
            signature: self.signature,
        }
    }
}

impl ProtocolMessage {
    /// The envelope a message carries, when it is a transaction.
    pub fn into_transaction(self) -> (r: Option<TransactionEnvelope>)
        ensures
            r == (match self {
                ProtocolMessage::Transaction(env) => Some(env),
                _ => None::<TransactionEnvelope>,
            }),
    {
        match self {
            ProtocolMessage::Transaction(env) => Some(env),
            _ => None,
        }
    }
}

} // verus!

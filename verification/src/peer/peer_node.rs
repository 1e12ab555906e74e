use vstd::prelude::*;

use crate::peer::identity::{hex_string, PeerIdentity};

verus! {

/// Everything the node tracks about one remote peer.
pub struct Peer {
    pub identity: PeerIdentity,
    /// Reputation score: 0–100. Drops to 0 triggers a ban.
    pub reputation: u32,
    pub is_banned: bool,
    /// Unix timestamp of the last observed activity from this peer
    pub last_seen_unix_sec: u64,
    /// Bitmask: 0x01 = BLE, 0x02 = WiFi-Direct
    pub supported_transports: u8,
    pub is_relay_node: bool,
    pub bytes_sent: u64,
    pub bytes_received: u64,
}

/// Highest reputation a peer can hold; a fresh peer starts there.
pub const MAX_REPUTATION: u32 = 100;

impl Peer {
    /// Whether this peer's identity is the one derived from its own public key.
    pub open spec fn identity_wf(&self) -> bool {
        self.identity.display_id@ == hex_string(self.identity.pubkey@)
    }

    /// A fresh peer record: full reputation, not banned, never seen, no traffic.
    pub fn new(pubkey: [u8; 32]) -> (r: Self)
        ensures
            r.identity.pubkey == pubkey,
            r.identity_wf(),
            r.reputation == MAX_REPUTATION,
            !r.is_banned,
            r.last_seen_unix_sec == 0,
            r.supported_transports == 0,
            !r.is_relay_node,
            r.bytes_sent == 0,
            r.bytes_received == 0,
    {
        Peer {
            identity: PeerIdentity::new(pubkey),
            reputation: MAX_REPUTATION,
            is_banned: false,
            last_seen_unix_sec: 0,
            supported_transports: 0,
            is_relay_node: false,
            bytes_sent: 0,
            bytes_received: 0,
        }
    }
}

} // verus!

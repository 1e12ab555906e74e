//! The column values a peer record is stored as, and back.

use vstd::prelude::*;

use crate::bytes::array32_prefix;
use crate::peer::peer_node::Peer;

verus! {

/// One row of the `peers` table, as the SQLite columns hold it.
pub struct PeerRow {
    pub pubkey: Vec<u8>,
    pub reputation: u32,
    pub last_seen_sec: u64,
    pub is_banned: bool,
    pub supported_transports: u32,
    pub is_relay_node: bool,
    pub bytes_sent: i64,
    pub bytes_received: i64,
}

impl PeerRow {
    /// The row a peer is saved as: counters are stored as signed 64-bit integers and the
    /// transport mask widened to 32 bits.
    pub fn from_peer(peer: &Peer) -> (r: Self)
        ensures
            r.pubkey@ == peer.identity.pubkey@,
            r.reputation == peer.reputation,
            r.last_seen_sec == peer.last_seen_unix_sec,
            r.is_banned == peer.is_banned,
            r.supported_transports == peer.supported_transports as u32,
            r.is_relay_node == peer.is_relay_node,
            r.bytes_sent == peer.bytes_sent as i64,
            r.bytes_received == peer.bytes_received as i64,
    {
        let mut pubkey: Vec<u8> = Vec::new();
        let mut i: usize = 0;
        while i < 32
            invariant
                i <= 32,
                pubkey@ == peer.identity.pubkey@.take(i as int),
            decreases 32 - i,
        {
            pubkey.push(peer.identity.pubkey[i]);
            assert(peer.identity.pubkey@.take(i + 1) =~= peer.identity.pubkey@.take(i as int).push(
                peer.identity.pubkey@[i as int],
            ));
            i = i + 1;
        }
        assert(peer.identity.pubkey@.take(32) =~= peer.identity.pubkey@);
        PeerRow {
            pubkey,
            reputation: peer.reputation,
            last_seen_sec: peer.last_seen_unix_sec,
            is_banned: peer.is_banned,
            supported_transports: peer.supported_transports as u32,
            is_relay_node: peer.is_relay_node,
            bytes_sent: peer.bytes_sent as i64,
            bytes_received: peer.bytes_received as i64,
        }
    }

    /// The peer a loaded row stands for. A stored key that is not 32 bytes long is read
    /// as the all-zero key; the transport mask keeps its low 8 bits and the counters are
    /// read back as unsigned.
    pub fn to_peer(&self) -> (r: Peer)
        ensures
            self.pubkey@.len() == 32 ==> r.identity.pubkey@ == self.pubkey@,
            self.pubkey@.len() != 32 ==> r.identity.pubkey@ == Seq::new(32, |i: int| 0u8),
            r.identity_wf(),
            r.reputation == self.reputation,
            r.last_seen_unix_sec == self.last_seen_sec,
            r.is_banned == self.is_banned,
            r.supported_transports == self.supported_transports as u8,
            r.is_relay_node == self.is_relay_node,
            r.bytes_sent == self.bytes_sent as u64,
            r.bytes_received == self.bytes_received as u64,
    {
        let pubkey: [u8; 32] = if self.pubkey.len() == 32 {
            array32_prefix(self.pubkey.as_slice())
        } else {
            [0u8; 32]
        };
        proof {
            if self.pubkey@.len() == 32 {
                assert(self.pubkey@.take(32) =~= self.pubkey@);
            } else {
                assert(pubkey@ =~= Seq::new(32, |i: int| 0u8));
            }
        }
        let mut peer = Peer::new(pubkey);
        peer.reputation = self.reputation;
        peer.last_seen_unix_sec = self.last_seen_sec;
        peer.is_banned = self.is_banned;
        peer.supported_transports = self.supported_transports as u8;
        peer.is_relay_node = self.is_relay_node;
        peer.bytes_sent = self.bytes_sent as u64;
        peer.bytes_received = self.bytes_received as u64;
        peer
    }
}

/// Saving a peer and loading the row back gives the same peer: key, reputation, ban
/// flag, last-seen time, transports, relay flag and traffic counters.
pub proof fn lemma_peer_row_roundtrip(p: Peer, row: PeerRow, q: Peer)
    requires
        row.pubkey@ == p.identity.pubkey@,
        row.reputation == p.reputation,
        row.last_seen_sec == p.last_seen_unix_sec,
        row.is_banned == p.is_banned,
        row.supported_transports == p.supported_transports as u32,
        row.is_relay_node == p.is_relay_node,
        row.bytes_sent == p.bytes_sent as i64,
        row.bytes_received == p.bytes_received as i64,
        row.pubkey@.len() == 32 ==> q.identity.pubkey@ == row.pubkey@,
        q.reputation == row.reputation,
        q.last_seen_unix_sec == row.last_seen_sec,
        q.is_banned == row.is_banned,
        q.supported_transports == row.supported_transports as u8,
        q.is_relay_node == row.is_relay_node,
        q.bytes_sent == row.bytes_sent as u64,
        q.bytes_received == row.bytes_received as u64,
    ensures
        q.identity.pubkey == p.identity.pubkey,
        q.reputation == p.reputation,
        q.last_seen_unix_sec == p.last_seen_unix_sec,
        q.is_banned == p.is_banned,
        q.supported_transports == p.supported_transports,
        q.is_relay_node == p.is_relay_node,
        q.bytes_sent == p.bytes_sent,
        q.bytes_received == p.bytes_received,
{
    broadcast use vstd::array::group_array_axioms;
    assert(q.identity.pubkey =~= p.identity.pubkey);
    let t = p.supported_transports;
    let s = p.bytes_sent;
    let v = p.bytes_received;
    assert((t as u32) as u8 == t) by (bit_vector);
    assert((s as i64) as u64 == s) by (bit_vector);
    assert((v as i64) as u64 == v) by (bit_vector);
}

} // verus!

//! BLE peer discovery: the advertisement payload, the advertiser's state and the
//! handling of a received advertisement.

use vstd::prelude::*;

use crate::bytes::array32_prefix;
use crate::clock::now_unix_sec;
use crate::discovery::events::DiscoveryEvent;
use crate::discovery::peer_list::{beacon_recorded, PeerList};
use crate::peer::identity::PeerIdentity;
use crate::transport::errors::TransportError;

verus! {

/// Length of an encoded advertisement payload: 32 key bytes and one flag byte.
pub const ADVERTISEMENT_PAYLOAD_LEN: usize = 33;

/// Capability flags embedded in the BLE advertisement manufacturer data.
/// bit 0 = node is a relay, bit 1 = node has Wi-Fi Direct support.
#[derive(Debug, Clone, PartialEq)]
pub struct BleAdvertisementPayload {
    /// 32-byte Ed25519 public key of the advertising peer.
    pub pubkey: [u8; 32],
    /// Capability bitmask: bit 0 = is_relay_node, bit 1 = has_wifi_direct.
    pub caps: u8,
}

/// The capability byte for the two flags: bit 0 for relay, bit 1 for Wi-Fi Direct.
pub open spec fn caps_of(is_relay: bool, has_wifi_direct: bool) -> u8 {
    ((if is_relay { 1int } else { 0int }) + (if has_wifi_direct { 2int } else { 0int })) as u8
}

/// Whether bit 0 (relay) of a capability byte is set.
pub open spec fn relay_bit(caps: u8) -> bool {
    caps % 2 == 1
}

/// Whether bit 1 (Wi-Fi Direct) of a capability byte is set.
pub open spec fn wifi_direct_bit(caps: u8) -> bool {
    (caps / 2) % 2 == 1
}

/// The wire form of a payload: the key followed by the capability byte.
pub open spec fn encoded_payload(p: BleAdvertisementPayload) -> Seq<u8> {
    p.pubkey@.push(p.caps)
}

impl BleAdvertisementPayload {
    /// Encode into exactly 33 bytes: pubkey (32) || caps (1).
    pub fn encode(&self) -> (r: Vec<u8>)
        ensures
            r@ == encoded_payload(*self),
            r@.len() == ADVERTISEMENT_PAYLOAD_LEN,
    {
        let mut buf: Vec<u8> = Vec::with_capacity(ADVERTISEMENT_PAYLOAD_LEN);
        let mut i: usize = 0;
        while i < 32
            invariant
                i <= 32,
                buf@ == self.pubkey@.take(i as int),
            decreases 32 - i,
        {
            buf.push(self.pubkey[i]);
            assert(self.pubkey@.take(i + 1) =~= self.pubkey@.take(i as int).push(self.pubkey@[i as int]));
            i = i + 1;
        }
        assert(self.pubkey@.take(32) =~= self.pubkey@);
        buf.push(self.caps);
        buf
    }

    /// Decode from a raw byte slice. Returns `None` if the slice is < 33 bytes;
    /// bytes past the 33rd are ignored.
    pub fn decode(data: &[u8]) -> (r: Option<Self>)
        ensures
            r is None <==> data@.len() < ADVERTISEMENT_PAYLOAD_LEN,
            r matches Some(p) ==> p.pubkey@ == data@.take(32) && p.caps == data@[32],
    {
        if data.len() < ADVERTISEMENT_PAYLOAD_LEN {
            return None;
        }
        let pubkey = array32_prefix(data);
        let caps = data[32];
        Some(BleAdvertisementPayload { pubkey, caps })
    }

    /// Build capability flags from semantic booleans.
    pub fn build_caps(is_relay: bool, has_wifi_direct: bool) -> (r: u8)
        ensures
            r == caps_of(is_relay, has_wifi_direct),
    {
        let mut caps = 0u8;
        if is_relay {
            caps = caps | 0b0000_0001;
        }
        if has_wifi_direct {
            caps = caps | 0b0000_0010;
        }
        assert(0u8 | 1u8 == 1u8 && 0u8 | 2u8 == 2u8 && (0u8 | 1u8) | 2u8 == 3u8) by (bit_vector);
        caps
    }

    /// Whether the advertising node is a relay.
    pub fn is_relay(&self) -> (r: bool)
        ensures
            r == relay_bit(self.caps),
    {
        let caps = self.caps;
        assert((caps & 1u8 != 0u8) == (caps % 2 == 1)) by (bit_vector);
        caps & 0b0000_0001 != 0
    }

    /// Whether the advertising node supports Wi-Fi Direct.
    pub fn has_wifi_direct(&self) -> (r: bool)
        ensures
            r == wifi_direct_bit(self.caps),
    {
        let caps = self.caps;
        assert((caps & 2u8 != 0u8) == ((caps / 2) % 2 == 1)) by (bit_vector);
        caps & 0b0000_0010 != 0
    }
}

/// The capability flags read back from a byte built from them are the flags themselves.
pub proof fn lemma_caps_roundtrip(is_relay: bool, has_wifi_direct: bool)
    ensures
        relay_bit(caps_of(is_relay, has_wifi_direct)) == is_relay,
        wifi_direct_bit(caps_of(is_relay, has_wifi_direct)) == has_wifi_direct,
{
}

/// Decoding an encoded payload gives back the payload's key and flags.
pub proof fn lemma_payload_roundtrip(p: BleAdvertisementPayload)
    ensures
        encoded_payload(p).len() == ADVERTISEMENT_PAYLOAD_LEN,
        encoded_payload(p).take(32) == p.pubkey@,
        encoded_payload(p)[32] == p.caps,
{
    assert(encoded_payload(p).take(32) =~= p.pubkey@);
}

/// Decoding and re-encoding keeps exactly the first 33 bytes of the input.
pub proof fn lemma_decode_encode(data: Seq<u8>, p: BleAdvertisementPayload)
    requires
        data.len() >= ADVERTISEMENT_PAYLOAD_LEN,
        p.pubkey@ == data.take(32),
        p.caps == data[32],
    ensures
        encoded_payload(p) == data.take(ADVERTISEMENT_PAYLOAD_LEN as int),
{
    assert(encoded_payload(p) =~= data.take(ADVERTISEMENT_PAYLOAD_LEN as int));
}

/// Advertises this node's identity so nearby scanners can discover it.
pub struct BleAdvertiser {
    identity: PeerIdentity,
    is_relay: bool,
    is_running: bool,
}

impl BleAdvertiser {
    /// The identity advertised.
    pub closed spec fn identity(&self) -> PeerIdentity {
        self.identity
    }

    /// Whether this node advertises itself as a relay.
    pub closed spec fn relay(&self) -> bool {
        self.is_relay
    }

    /// Whether advertising is on.
    pub closed spec fn running(&self) -> bool {
        self.is_running
    }

    /// Start BLE advertising for `identity`; the advertiser is running afterwards.
    pub fn start(identity: PeerIdentity, is_relay: bool) -> (r: Result<Self, TransportError>)
        ensures
            r matches Ok(a) && a.identity() == identity && a.relay() == is_relay && a.running(),
    {
        Ok(BleAdvertiser { identity, is_relay, is_running: true })
    }

    /// Stop BLE advertising; nothing else changes.
    pub fn stop(&mut self)
        ensures
            !final(self).running(),
            final(self).identity() == old(self).identity(),
            final(self).relay() == old(self).relay(),
    {
        self.is_running = false;
    }

    /// Returns whether the advertiser is currently running.
    pub fn is_running(&self) -> (r: bool)
        ensures
            r == self.running(),
    {
        self.is_running
    }

    /// Build the payload that this advertiser embeds in BLE manufacturer data:
    /// its key, the relay flag, and no Wi-Fi Direct flag.
    pub fn build_payload(&self) -> (r: BleAdvertisementPayload)
        ensures
            r.pubkey == self.identity().pubkey,
            r.caps == caps_of(self.relay(), false),
    {
        BleAdvertisementPayload {
            pubkey: self.identity.pubkey,
            caps: BleAdvertisementPayload::build_caps(self.is_relay, false),
        }
    }
}

/// Handles one received advertisement at time `now`: the manufacturer data is decoded
/// and, when it holds a payload, the advertised key is recorded in `peer_list` with the
/// signal strength. Malformed data yields `None` and leaves the list unchanged.
pub fn process_advertisement_at(
    peer_list: &mut PeerList,
    manufacturer_data: &[u8],
    rssi: u8,
    now: u64,
) -> (r: Option<DiscoveryEvent>)
    requires
        old(peer_list).wf(),
    ensures
        final(peer_list).wf(),
        final(peer_list).expiry() == old(peer_list).expiry(),
        manufacturer_data@.len() < ADVERTISEMENT_PAYLOAD_LEN ==> r is None && final(peer_list).peers()
            == old(peer_list).peers(),
        manufacturer_data@.len() >= ADVERTISEMENT_PAYLOAD_LEN ==> exists|key: [u8; 32]|
            key@ == manufacturer_data@.take(32) && #[trigger] beacon_recorded(
                old(peer_list).peers(),
                final(peer_list).peers(),
                key,
                rssi,
                now,
                r,
            ),
{
    let payload = BleAdvertisementPayload::decode(manufacturer_data)?;
    let event = peer_list.insert_or_update_at(payload.pubkey, rssi, now);
    event
}

/// Handles one received advertisement, recording it at the current wall-clock time;
/// see `process_advertisement_at`.
pub fn process_advertisement(peer_list: &mut PeerList, manufacturer_data: &[u8], rssi: u8) -> (r:
    Option<DiscoveryEvent>)
    requires
        old(peer_list).wf(),
    ensures
        final(peer_list).wf(),
        final(peer_list).expiry() == old(peer_list).expiry(),
        manufacturer_data@.len() < ADVERTISEMENT_PAYLOAD_LEN ==> r is None && final(peer_list).peers()
            == old(peer_list).peers(),
        manufacturer_data@.len() >= ADVERTISEMENT_PAYLOAD_LEN ==> exists|key: [u8; 32], now: u64|
            key@ == manufacturer_data@.take(32) && #[trigger] beacon_recorded(
                old(peer_list).peers(),
                final(peer_list).peers(),
                key,
                rssi,
                now,
                r,
            ),
{
    let now = now_unix_sec();
    process_advertisement_at(peer_list, manufacturer_data, rssi, now)
}

} // verus!

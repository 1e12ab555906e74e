use stellarconduit_core::discovery::{
    ble::{process_advertisement, process_advertisement_at, BleAdvertisementPayload, BleAdvertiser},
    events::DiscoveryEvent,
    peer_list::PeerList,
};
use stellarconduit_core::peer::identity::PeerIdentity;

fn pk(b: u8) -> [u8; 32] {
    [b; 32]
}

// ── BleAdvertisementPayload encode / decode ────────────────────────────────

#[test]
fn encode_is_exactly_33_bytes() {
    let p = BleAdvertisementPayload {
        pubkey: pk(0xAA),
        caps: 0b11,
    };
    assert_eq!(p.encode().len(), 33);
}

#[test]
fn ble_encode_decode_roundtrip() {
    let initial = BleAdvertisementPayload {
        pubkey: pk(0x42),
        caps: 0b01,
    };
    let decoded = BleAdvertisementPayload::decode(&initial.encode()).unwrap();
    assert_eq!(decoded, initial);
}

#[test]
fn decode_rejects_short_slice() {
    assert!(BleAdvertisementPayload::decode(&[0u8; 32]).is_none());
}

#[test]
fn decode_accepts_extra_trailing_bytes() {
    let mut data = [0u8; 40];
    data[32] = 0b10;
    let p = BleAdvertisementPayload::decode(&data).unwrap();
    assert_eq!(p.caps, 0b10);
}

#[test]
fn encode_puts_key_first_and_caps_last() {
    let mut key = [0u8; 32];
    for (i, b) in key.iter_mut().enumerate() {
        *b = i as u8;
    }
    let p = BleAdvertisementPayload { pubkey: key, caps: 0b11 };
    let bytes = p.encode();
    assert_eq!(&bytes[..32], &key[..]);
    assert_eq!(bytes[32], 0b11);
}

// ── Capability flag helpers ────────────────────────────────────────────────

#[test]
fn relay_flag_is_bit_0() {
    let caps = BleAdvertisementPayload::build_caps(true, false);
    assert_eq!(caps & 0b01, 1);
    assert_eq!(caps & 0b10, 0);
}

#[test]
fn wifi_direct_flag_is_bit_1() {
    let caps = BleAdvertisementPayload::build_caps(false, true);
    assert_eq!(caps & 0b01, 0);
    assert_eq!(caps & 0b10, 2);
}

#[test]
fn is_relay_and_has_wifi_direct_both_set() {
    let p = BleAdvertisementPayload {
        pubkey: pk(1),
        caps: BleAdvertisementPayload::build_caps(true, true),
    };
    assert!(p.is_relay());
    assert!(p.has_wifi_direct());
}

#[test]
fn no_flags_set() {
    let p = BleAdvertisementPayload {
        pubkey: pk(2),
        caps: 0,
    };
    assert!(!p.is_relay());
    assert!(!p.has_wifi_direct());
}

#[test]
fn flags_read_back_as_built() {
    for relay in [false, true] {
        for wifi in [false, true] {
            let p = BleAdvertisementPayload {
                pubkey: pk(3),
                caps: BleAdvertisementPayload::build_caps(relay, wifi),
            };
            assert_eq!(p.is_relay(), relay);
            assert_eq!(p.has_wifi_direct(), wifi);
        }
    }
}

// ── Handling advertisements ────────────────────────────────────────────────

#[test]
fn scanner_fires_peer_discovered_on_first_contact() {
    let mut peer_list = PeerList::new(300);
    let payload = BleAdvertisementPayload {
        pubkey: pk(0x55),
        caps: 0,
    };
    let event = process_advertisement(&mut peer_list, &payload.encode(), 80);
    assert!(matches!(event, Some(DiscoveryEvent::PeerDiscovered(_))));
}

#[test]
fn scanner_fires_peer_updated_on_repeat_contact() {
    let mut peer_list = PeerList::new(300);
    let payload = BleAdvertisementPayload {
        pubkey: pk(0x66),
        caps: 0,
    };
    let encoded = payload.encode();
    process_advertisement(&mut peer_list, &encoded, 70);
    let event = process_advertisement(&mut peer_list, &encoded, 75);
    assert!(matches!(event, Some(DiscoveryEvent::PeerUpdated(_, _))));
}

#[test]
fn scanner_returns_none_for_malformed_payload() {
    let mut peer_list = PeerList::new(300);
    let result = process_advertisement(&mut peer_list, &[0u8; 10], 50);
    assert!(result.is_none());
    assert!(peer_list.is_empty());
}

#[test]
fn advertisement_records_key_and_signal_strength() {
    let mut peer_list = PeerList::new(300);
    let payload = BleAdvertisementPayload {
        pubkey: pk(0x77),
        caps: 0b01,
    };
    let encoded = payload.encode();
    process_advertisement_at(&mut peer_list, &encoded, 90, 1_000);
    match process_advertisement_at(&mut peer_list, &encoded, 42, 1_010) {
        Some(DiscoveryEvent::PeerUpdated(identity, rssi)) => {
            assert_eq!(identity.pubkey, pk(0x77));
            assert_eq!(rssi, 42);
        }
        _ => panic!("Expected PeerUpdated"),
    }
    let active = peer_list.get_active_peers_at(1_010);
    assert_eq!(active.len(), 1);
    assert_eq!(active[0].last_seen_unix_sec, 1_010);
}

// ── BleAdvertiser ─────────────────────────────────────────────────────────

#[test]
fn advertiser_starts_in_running_state() {
    let identity = PeerIdentity::new([0xBBu8; 32]);
    let adv = BleAdvertiser::start(identity, false).unwrap();
    assert!(adv.is_running());
}

#[test]
fn advertiser_stop_clears_running_flag() {
    let identity = PeerIdentity::new([0xCCu8; 32]);
    let mut adv = BleAdvertiser::start(identity, false).unwrap();
    adv.stop();
    assert!(!adv.is_running());
}

#[test]
fn advertiser_build_payload_encodes_relay_flag() {
    let identity = PeerIdentity::new([0xDDu8; 32]);
    let adv = BleAdvertiser::start(identity, true).unwrap();
    let payload = adv.build_payload();
    assert!(payload.is_relay());
    assert!(!payload.has_wifi_direct());
    assert_eq!(payload.pubkey, [0xDDu8; 32]);
}

#[test]
fn advertiser_payload_encodes_to_33_bytes() {
    let identity = PeerIdentity::new([0xEEu8; 32]);
    let adv = BleAdvertiser::start(identity, false).unwrap();
    assert_eq!(adv.build_payload().encode().len(), 33);
}

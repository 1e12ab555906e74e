use stellarconduit_core::peer::peer_node::Peer;
use stellarconduit_core::persistence::records::PeerRow;

#[test]
fn peer_row_roundtrip_keeps_every_field() {
    let mut peer = Peer::new([0x3Cu8; 32]);
    peer.reputation = 37;
    peer.is_banned = true;
    peer.last_seen_unix_sec = 1_700_000_000;
    peer.supported_transports = 0x03;
    peer.is_relay_node = true;
    peer.bytes_sent = 12_345;
    peer.bytes_received = u64::MAX;

    let row = PeerRow::from_peer(&peer);
    assert_eq!(row.pubkey, vec![0x3Cu8; 32]);
    assert_eq!(row.supported_transports, 3);
    assert_eq!(row.bytes_received, -1, "stored as a signed column");

    let back = row.to_peer();
    assert_eq!(back.identity.pubkey, peer.identity.pubkey);
    assert_eq!(back.identity.display_id, peer.identity.display_id);
    assert_eq!(back.reputation, 37);
    assert!(back.is_banned);
    assert_eq!(back.last_seen_unix_sec, 1_700_000_000);
    assert_eq!(back.supported_transports, 0x03);
    assert!(back.is_relay_node);
    assert_eq!(back.bytes_sent, 12_345);
    assert_eq!(back.bytes_received, u64::MAX);
}

#[test]
fn row_with_wrong_key_length_loads_zero_key() {
    let row = PeerRow {
        pubkey: vec![1, 2, 3],
        reputation: 100,
        last_seen_sec: 5,
        is_banned: false,
        supported_transports: 0x1FF,
        is_relay_node: false,
        bytes_sent: 0,
        bytes_received: 0,
    };
    let peer = row.to_peer();
    assert_eq!(peer.identity.pubkey, [0u8; 32]);
    assert_eq!(peer.supported_transports, 0xFF, "low eight bits kept");
}

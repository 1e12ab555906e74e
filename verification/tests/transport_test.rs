use stellarconduit_core::peer::identity::PeerIdentity;
use stellarconduit_core::transport::{
    ble_transport::{
        decode_chunk, encode_chunk, ingest_frame_bytes_at, BleCentral, BlePeripheral, BLE_ATT_MTU,
        SC_NOTIFY_CHAR_UUID, SC_SERVICE_UUID, SC_WRITE_CHAR_UUID,
    },
    connection::{ConnectionState, TransportType},
    errors::TransportError,
    manager::TransportManager,
    unified::{
        after_send_failure, after_wifi_failure, first_connect_step, ChunkFrame, ConnectStep,
        MessageChunker, MessageReassembler, TransportPreference, CHUNK_FRAME_HEADER_SIZE,
        MAX_MESSAGE_SIZE_BYTES,
    },
};

fn make_peer() -> PeerIdentity {
    PeerIdentity::new([0xABu8; 32])
}

#[test]
fn test_connection_state_failed_variant() {
    let s = ConnectionState::Failed(TransportError::Timeout);
    assert_eq!(s, ConnectionState::Failed(TransportError::Timeout));
    assert_ne!(s, ConnectionState::Failed(TransportError::BrokenPipe));
}

// ── BLE wire format ─────────────────────────────────────────────────────────

#[test]
fn service_uuids_are_distinct() {
    assert_ne!(SC_SERVICE_UUID, SC_WRITE_CHAR_UUID);
    assert_ne!(SC_SERVICE_UUID, SC_NOTIFY_CHAR_UUID);
    assert_ne!(SC_WRITE_CHAR_UUID, SC_NOTIFY_CHAR_UUID);
}

#[test]
fn service_uuids_are_nonzero() {
    assert_ne!(SC_SERVICE_UUID, 0);
    assert_ne!(SC_WRITE_CHAR_UUID, 0);
    assert_ne!(SC_NOTIFY_CHAR_UUID, 0);
}

#[test]
fn ble_transport_encode_decode_roundtrip() {
    let frame = ChunkFrame {
        message_id: 0xDEAD,
        total_length: 100,
        offset: 0,
        payload_size: 4,
        payload: vec![1, 2, 3, 4],
    };

    let encoded = encode_chunk(&frame);
    let decoded = decode_chunk(&encoded).expect("decode should succeed");
    assert_eq!(decoded, frame);
}

#[test]
fn decode_rejects_short_buffer() {
    assert!(decode_chunk(&[0u8; 13]).is_none());
}

#[test]
fn decode_rejects_mismatched_payload_size() {
    let frame = ChunkFrame {
        message_id: 1,
        total_length: 10,
        offset: 0,
        payload_size: 5,
        payload: vec![1, 2, 3, 4],
    };
    let mut raw = encode_chunk(&frame);
    raw[12] = 5;
    raw[13] = 0;
    raw.pop();
    assert!(decode_chunk(&raw).is_none());
}

#[test]
fn encode_chunk_is_little_endian() {
    let frame = ChunkFrame {
        message_id: 0x0403_0201,
        total_length: 0x0807_0605,
        offset: 0x0C0B_0A09,
        payload_size: 0x0E0D,
        payload: vec![],
    };
    let encoded = encode_chunk(&frame);
    assert_eq!(encoded, vec![1, 2, 3, 4, 5, 6, 7, 8, 9, 10, 11, 12, 13, 14]);
}

#[test]
fn decode_then_encode_gives_the_bytes_back() {
    let raw = vec![7, 0, 0, 0, 9, 0, 0, 0, 2, 0, 0, 0, 3, 0, 0xA, 0xB, 0xC];
    let frame = decode_chunk(&raw).unwrap();
    assert_eq!(frame.message_id, 7);
    assert_eq!(frame.total_length, 9);
    assert_eq!(frame.offset, 2);
    assert_eq!(frame.payload, vec![0xA, 0xB, 0xC]);
    assert_eq!(encode_chunk(&frame), raw);
}

#[test]
fn undecodable_bytes_break_the_pipe() {
    let mut reassembler = MessageReassembler::new();
    let result = ingest_frame_bytes_at(&mut reassembler, &[1, 2, 3], 0);
    assert_eq!(result, Err(TransportError::BrokenPipe));
    assert_eq!(reassembler.in_flight_buffer_count(), 0);
}

// ── BLE links ───────────────────────────────────────────────────────────────

#[test]
fn ble_peripheral_initial_state_is_disconnected() {
    let p = BlePeripheral::new(make_peer());
    assert_eq!(p.state(), ConnectionState::Disconnected);
}

#[test]
fn ble_peripheral_transport_type_is_ble() {
    let p = BlePeripheral::new(make_peer());
    assert_eq!(p.transport_type(), TransportType::Ble);
}

#[test]
fn ble_peripheral_remote_peer_matches() {
    let peer = make_peer();
    let p = BlePeripheral::new(peer.clone());
    assert_eq!(p.remote_peer().pubkey, peer.pubkey);
}

#[test]
fn ble_central_initial_state_is_disconnected() {
    let c = BleCentral::new(make_peer());
    assert_eq!(c.state(), ConnectionState::Disconnected);
}

#[test]
fn ble_central_transport_type_is_ble() {
    let c = BleCentral::new(make_peer());
    assert_eq!(c.transport_type(), TransportType::Ble);
}

#[test]
fn peripheral_send_fails_when_disconnected() {
    let p = BlePeripheral::new(make_peer());
    assert_eq!(p.send(&[1, 2, 3]), Err(TransportError::NotConnected));
    assert_eq!(p.ensure_connected(), Err(TransportError::NotConnected));
}

#[test]
fn central_send_fails_when_disconnected() {
    let c = BleCentral::new(make_peer());
    assert_eq!(c.send(&[1, 2, 3]), Err(TransportError::NotConnected));
    assert_eq!(c.ensure_connected(), Err(TransportError::NotConnected));
}

#[test]
fn peripheral_connect_transitions_to_connected() {
    let mut p = BlePeripheral::new(make_peer());
    p.connect().unwrap();
    assert_eq!(p.state(), ConnectionState::Connected);
    assert_eq!(p.ensure_connected(), Ok(()));
}

#[test]
fn central_connect_transitions_to_connected() {
    let mut c = BleCentral::new(make_peer());
    c.connect().unwrap();
    assert_eq!(c.state(), ConnectionState::Connected);
}

#[test]
fn peripheral_disconnect_transitions_to_disconnected() {
    let mut p = BlePeripheral::new(make_peer());
    p.connect().unwrap();
    p.disconnect().unwrap();
    assert_eq!(p.state(), ConnectionState::Disconnected);
}

#[test]
fn central_disconnect_transitions_to_disconnected() {
    let mut c = BleCentral::new(make_peer());
    c.connect().unwrap();
    c.disconnect().unwrap();
    assert_eq!(c.state(), ConnectionState::Disconnected);
}

#[test]
fn peripheral_ingest_chunk_delivers_complete_message() {
    let mut p = BlePeripheral::new(make_peer());
    p.connect().unwrap();

    let message: Vec<u8> = (0..600u32).map(|v| (v % 253) as u8).collect();
    let chunker = MessageChunker { mtu: BLE_ATT_MTU };
    let frames = chunker.chunk(&message);
    assert!(frames.len() > 1);

    let mut delivered = None;
    let last = frames.len() - 1;
    for (i, frame) in frames.into_iter().enumerate() {
        let raw = encode_chunk(&frame);
        let got = p.ingest_chunk_bytes(&raw).unwrap();
        if i < last {
            assert!(got.is_none());
        } else {
            delivered = got;
        }
    }
    assert_eq!(delivered, Some(message));
}

#[test]
fn central_send_produces_decodable_frames_for_the_mtu() {
    let mut c = BleCentral::new(make_peer());
    c.connect().unwrap();
    let message: Vec<u8> = (0..1000u32).map(|v| (v % 7) as u8).collect();
    let wire = c.send(&message).unwrap();
    assert_eq!(wire.len(), 5, "230 payload bytes per frame");
    let mut reassembler = MessageReassembler::new();
    let mut rebuilt = None;
    for raw in &wire {
        assert!(raw.len() <= BLE_ATT_MTU);
        if let Some(bytes) = c.ingest_notification_bytes_at(raw, &mut reassembler, 5).unwrap() {
            rebuilt = Some(bytes);
        }
    }
    assert_eq!(rebuilt, Some(message));
}

#[test]
fn connected_send_of_empty_message_has_no_frames() {
    let mut p = BlePeripheral::new(make_peer());
    p.start_advertising().unwrap();
    assert_eq!(p.send(&[]), Ok(vec![]));
}

// ── Chunking and reassembly ─────────────────────────────────────────────────

#[test]
fn chunker_slices_respecting_mtu() {
    let mtu = 32usize;
    let chunker = MessageChunker { mtu };
    let message: Vec<u8> = (0..100u8).collect();

    let chunks = chunker.chunk(&message);
    assert!(!chunks.is_empty());

    for chunk in &chunks {
        let frame_size = CHUNK_FRAME_HEADER_SIZE + chunk.payload.len();
        assert!(frame_size <= mtu);
        assert_eq!(usize::from(chunk.payload_size), chunk.payload.len());
        assert_eq!(chunk.total_length as usize, message.len());
    }

    let mut reassembler = MessageReassembler::new();
    let mut rebuilt = None;
    for chunk in chunks {
        if let Some(bytes) = reassembler.receive_chunk(chunk) {
            rebuilt = Some(bytes);
        }
    }

    assert_eq!(rebuilt, Some(message));
}

#[test]
fn reassembler_handles_out_of_order_chunks() {
    let chunker = MessageChunker { mtu: 40 };
    let message: Vec<u8> = (0..200u16).map(|v| (v % 251) as u8).collect();
    let mut chunks = chunker.chunk(&message);

    assert!(chunks.len() >= 3);
    chunks.swap(0, 1);
    let len = chunks.len();
    chunks.swap(len - 1, len - 2);

    let mut reassembler = MessageReassembler::new();
    let mut rebuilt = None;

    for chunk in chunks {
        if let Some(bytes) = reassembler.receive_chunk(chunk) {
            rebuilt = Some(bytes);
        }
    }

    assert_eq!(rebuilt, Some(message));
}

#[test]
fn stale_buffers_are_cleaned_up() {
    let mut reassembler = MessageReassembler::new();
    let chunk = ChunkFrame {
        message_id: 7,
        total_length: 10,
        offset: 0,
        payload_size: 4,
        payload: vec![1, 2, 3, 4],
    };

    assert_eq!(reassembler.receive_chunk_at(chunk, 1_000), None);
    assert_eq!(reassembler.in_flight_buffer_count(), 1);

    reassembler.cleanup_stale_buffers_at(5, 1_020);
    assert_eq!(reassembler.in_flight_buffer_count(), 0);
}

#[test]
fn oversized_message_is_rejected() {
    let mut reassembler = MessageReassembler::new();
    let chunk = ChunkFrame {
        message_id: 1,
        total_length: (MAX_MESSAGE_SIZE_BYTES + 1) as u32,
        offset: 0,
        payload_size: 1,
        payload: vec![1],
    };

    assert_eq!(reassembler.receive_chunk(chunk), None);
    assert_eq!(reassembler.in_flight_buffer_count(), 0);
}

#[test]
fn fresh_buffers_survive_cleanup() {
    let mut reassembler = MessageReassembler::new();
    let chunk = ChunkFrame { message_id: 3, total_length: 8, offset: 4, payload_size: 2, payload: vec![9, 9] };
    reassembler.receive_chunk_at(chunk, 1_000);
    reassembler.cleanup_stale_buffers_at(5, 1_005);
    assert_eq!(reassembler.in_flight_buffer_count(), 1);
    reassembler.cleanup_stale_buffers_at(5, 1_006);
    assert_eq!(reassembler.in_flight_buffer_count(), 0);
}

#[test]
fn chunker_produces_nothing_for_unchunkable_input() {
    assert!(MessageChunker { mtu: 32 }.chunk(&[]).is_empty());
    assert!(MessageChunker { mtu: CHUNK_FRAME_HEADER_SIZE }.chunk(&[1, 2, 3]).is_empty());
    let too_big = vec![0u8; MAX_MESSAGE_SIZE_BYTES + 1];
    assert!(MessageChunker { mtu: 1024 }.chunk(&too_big).is_empty());
}

#[test]
fn chunk_with_id_cuts_exact_pieces() {
    let chunker = MessageChunker { mtu: CHUNK_FRAME_HEADER_SIZE + 4 };
    let frames = chunker.chunk_with_id(&[1, 2, 3, 4, 5, 6, 7, 8, 9, 10], 42);
    assert_eq!(frames.len(), 3);
    assert_eq!(frames[0].payload, vec![1, 2, 3, 4]);
    assert_eq!(frames[1].offset, 4);
    assert_eq!(frames[2].payload, vec![9, 10]);
    assert_eq!(frames[2].payload_size, 2);
    assert!(frames.iter().all(|f| f.message_id == 42 && f.total_length == 10));
}

#[test]
fn chunk_payload_is_capped_at_sixteen_bits() {
    let chunker = MessageChunker { mtu: 100_000 };
    let message = vec![1u8; 70_000];
    let frames = chunker.chunk_with_id(&message, 1);
    assert_eq!(frames.len(), 2);
    assert_eq!(frames[0].payload.len(), 65_535);
    assert_eq!(frames[1].payload.len(), 70_000 - 65_535);
}

#[test]
fn duplicate_frames_do_not_complete_early() {
    let chunker = MessageChunker { mtu: CHUNK_FRAME_HEADER_SIZE + 3 };
    let frames = chunker.chunk_with_id(&[1, 2, 3, 4, 5, 6], 9);
    let mut reassembler = MessageReassembler::new();
    assert_eq!(reassembler.receive_chunk_at(frames[0].clone(), 0), None);
    assert_eq!(reassembler.receive_chunk_at(frames[0].clone(), 1), None);
    assert_eq!(reassembler.in_flight_buffer_count(), 1);
    assert_eq!(reassembler.receive_chunk_at(frames[1].clone(), 2), Some(vec![1, 2, 3, 4, 5, 6]));
    assert_eq!(reassembler.in_flight_buffer_count(), 0);
}

#[test]
fn frame_with_conflicting_total_length_is_ignored() {
    let mut reassembler = MessageReassembler::new();
    let first = ChunkFrame { message_id: 5, total_length: 4, offset: 0, payload_size: 2, payload: vec![1, 2] };
    let other = ChunkFrame { message_id: 5, total_length: 6, offset: 2, payload_size: 2, payload: vec![3, 4] };
    let rest = ChunkFrame { message_id: 5, total_length: 4, offset: 2, payload_size: 2, payload: vec![3, 4] };
    assert_eq!(reassembler.receive_chunk_at(first, 0), None);
    assert_eq!(reassembler.receive_chunk_at(other, 0), None);
    assert_eq!(reassembler.receive_chunk_at(rest, 0), Some(vec![1, 2, 3, 4]));
}

#[test]
fn invalid_frames_are_dropped() {
    let mut reassembler = MessageReassembler::new();
    let bad_size = ChunkFrame { message_id: 1, total_length: 4, offset: 0, payload_size: 3, payload: vec![1, 2] };
    let past_end = ChunkFrame { message_id: 1, total_length: 4, offset: 3, payload_size: 2, payload: vec![1, 2] };
    let zero_total = ChunkFrame { message_id: 1, total_length: 0, offset: 0, payload_size: 0, payload: vec![] };
    assert_eq!(reassembler.receive_chunk_at(bad_size, 0), None);
    assert_eq!(reassembler.receive_chunk_at(past_end, 0), None);
    assert_eq!(reassembler.receive_chunk_at(zero_total, 0), None);
    assert_eq!(reassembler.in_flight_buffer_count(), 0);
}

#[test]
fn reassembly_in_reverse_order_with_interleaved_messages() {
    let chunker = MessageChunker { mtu: CHUNK_FRAME_HEADER_SIZE + 5 };
    let a: Vec<u8> = (0..23u8).collect();
    let b: Vec<u8> = (100..117u8).collect();
    let fa = chunker.chunk_with_id(&a, 1);
    let fb = chunker.chunk_with_id(&b, 2);
    let mut reassembler = MessageReassembler::new();
    let mut done = Vec::new();
    let n = fa.len().max(fb.len());
    for i in (0..n).rev() {
        if i < fa.len() {
            if let Some(m) = reassembler.receive_chunk_at(fa[i].clone(), i as u64) {
                done.push(m);
            }
        }
        if i < fb.len() {
            if let Some(m) = reassembler.receive_chunk_at(fb[i].clone(), i as u64) {
                done.push(m);
            }
        }
    }
    assert_eq!(done.len(), 2);
    assert!(done.contains(&a));
    assert!(done.contains(&b));
    assert_eq!(reassembler.in_flight_buffer_count(), 0);
}

// ── Connection policy ──────────────────────────────────────────────────────

#[test]
fn auto_mode_uses_wifi_when_addr_provided() {
    assert_eq!(first_connect_step(TransportPreference::Auto, true), ConnectStep::TryWifi);
}

#[test]
fn auto_mode_falls_back_to_ble_when_no_wifi_addr() {
    assert_eq!(first_connect_step(TransportPreference::Auto, false), ConnectStep::UseBle);
}

#[test]
fn wifi_only_fails_without_addr() {
    assert_eq!(
        first_connect_step(TransportPreference::WifiOnly, false),
        ConnectStep::Fail(TransportError::NotConnected)
    );
    assert_eq!(first_connect_step(TransportPreference::WifiOnly, true), ConnectStep::TryWifi);
}

#[test]
fn ble_only_skips_wifi() {
    assert_eq!(first_connect_step(TransportPreference::BleOnly, true), ConnectStep::UseBle);
    assert_eq!(first_connect_step(TransportPreference::BleOnly, false), ConnectStep::UseBle);
}

#[test]
fn wifi_failure_falls_back_to_ble_in_auto() {
    for err in [
        TransportError::ConnectionRefused,
        TransportError::Timeout,
        TransportError::BrokenPipe,
        TransportError::NotConnected,
        TransportError::PayloadTooLarge,
    ] {
        assert_eq!(after_wifi_failure(TransportPreference::Auto, err), ConnectStep::UseBle);
        assert_eq!(after_wifi_failure(TransportPreference::WifiOnly, err), ConnectStep::Fail(err));
    }
}

#[test]
fn broken_pipe_on_send_reconnects_over_ble() {
    assert_eq!(after_send_failure(TransportError::BrokenPipe), ConnectStep::UseBle);
    assert_eq!(
        after_send_failure(TransportError::NotConnected),
        ConnectStep::Fail(TransportError::NotConnected)
    );
}

// ── Connection table ───────────────────────────────────────────────────────

#[test]
fn only_one_connection_per_peer() {
    let mut mgr: TransportManager<u32> = TransportManager::new(TransportPreference::Auto);
    mgr.insert_connection([0xFF; 32], 1);
    assert_eq!(mgr.connection_count(), 1);
    mgr.insert_connection([0xFF; 32], 2);
    assert_eq!(mgr.connection_count(), 1);
    assert_eq!(mgr.take_connection(&[0xFF; 32]), Some(2), "the second replaced the first");
}

#[test]
fn shutdown_clears_all_connections() {
    let mut mgr: TransportManager<u32> = TransportManager::new(TransportPreference::BleOnly);
    mgr.insert_connection([0x01; 32], 10);
    mgr.insert_connection([0x02; 32], 20);
    assert_eq!(mgr.connection_count(), 2);
    let mut drained = mgr.drain_connections();
    assert_eq!(mgr.connection_count(), 0);
    drained.sort();
    assert_eq!(drained, vec![([0x01; 32], 10), ([0x02; 32], 20)]);
}

#[test]
fn manager_keeps_its_preference_and_tracks_peers() {
    let mut mgr: TransportManager<&str> = TransportManager::new(TransportPreference::WifiOnly);
    assert_eq!(mgr.preference(), TransportPreference::WifiOnly);
    assert!(!mgr.has_connection(&[3; 32]));
    mgr.insert_connection([3; 32], "a");
    mgr.insert_connection([4; 32], "b");
    assert!(mgr.has_connection(&[3; 32]));
    let mut peers = mgr.connected_peers();
    peers.sort();
    assert_eq!(peers, vec![[3; 32], [4; 32]]);
    assert_eq!(mgr.take_connection(&[3; 32]), Some("a"));
    assert_eq!(mgr.take_connection(&[3; 32]), None);
    assert_eq!(mgr.connection_count(), 1);
    assert_eq!(mgr.preference(), TransportPreference::WifiOnly);
}

#[test]
fn reassembler_clock_is_monotonic_from_zero() {
    let reassembler = MessageReassembler::new();
    let a = reassembler.now_millis();
    let b = reassembler.now_millis();
    assert!(a < 60_000);
    assert!(b >= a);
}

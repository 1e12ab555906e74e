use bloomfilter::Bloom;
use stellarconduit_core::gossip::{
    bloom::{MessageFilter, SlidingBloomFilter},
    protocol::GossipState,
    round::{
        GossipScheduler, ACTIVE_ROUND_INTERVAL_MS, IDLE_ROUND_INTERVAL_MS, IDLE_TIMEOUT_SEC,
    },
};
use stellarconduit_core::message::types::{SyncResponse, TransactionEnvelope};

fn mock_envelope(id_byte: u8) -> TransactionEnvelope {
    TransactionEnvelope {
        message_id: [id_byte; 32],
        origin_pubkey: [0u8; 32],
        tx_xdr: format!("XDR{}", id_byte),
        ttl_hops: 10,
        timestamp: 0,
        signature: [0u8; 64],
    }
}

// ── GossipState ─────────────────────────────────────────────────────────────

#[test]
fn test_generate_sync_request() {
    let mut state = GossipState::new();
    state.add_envelope(mock_envelope(0xAA));
    state.add_envelope(mock_envelope(0xBB));

    let req = state.generate_sync_request();
    assert_eq!(req.known_message_ids.len(), 2);
    assert_eq!(req.known_message_ids[0], [0xAA, 0xAA, 0xAA, 0xAA]);
    assert_eq!(req.known_message_ids[1], [0xBB, 0xBB, 0xBB, 0xBB]);
}

#[test]
fn test_handle_sync_request_delta_calculation() {
    let mut node_a = GossipState::new();
    node_a.add_envelope(mock_envelope(0xAA));
    node_a.add_envelope(mock_envelope(0xBB));

    let mut node_b = GossipState::new();
    node_b.add_envelope(mock_envelope(0xAA));

    let req = node_b.generate_sync_request();
    let resp = node_a.handle_sync_request(&req);

    assert_eq!(resp.missing_envelopes.len(), 1);
    assert_eq!(resp.missing_envelopes[0].message_id[0], 0xBB);
}

#[test]
fn test_handle_sync_response() {
    let mut state = GossipState::new();
    assert_eq!(state.active_envelopes.len(), 0);

    let resp = SyncResponse {
        missing_envelopes: vec![mock_envelope(0xCC)],
    };

    state.handle_sync_response(resp);
    assert_eq!(state.active_envelopes.len(), 1);
    assert_eq!(state.active_envelopes[0].message_id[0], 0xCC);
}

#[test]
fn test_sync_round_brings_requester_up_to_date() {
    let mut node_a = GossipState::new();
    for b in [0x01u8, 0x02, 0x03, 0x04] {
        node_a.add_envelope(mock_envelope(b));
    }
    let mut node_b = GossipState::new();
    node_b.add_envelope(mock_envelope(0x02));
    node_b.add_envelope(mock_envelope(0x09));

    let req = node_b.generate_sync_request();
    let resp = node_a.handle_sync_request(&req);
    let sent: Vec<u8> = resp.missing_envelopes.iter().map(|e| e.message_id[0]).collect();
    assert_eq!(sent, vec![0x01, 0x03, 0x04], "missing ones, in the responder's order");
    node_b.handle_sync_response(resp);

    for b in [0x01u8, 0x02, 0x03, 0x04] {
        assert!(node_b.active_envelopes.iter().any(|e| e.message_id[0] == b));
    }
    assert_eq!(node_b.active_envelopes.len(), 5);
}

#[test]
fn test_sync_request_compares_only_id_prefixes() {
    let mut node_a = GossipState::new();
    let mut env = mock_envelope(0x10);
    env.message_id[31] = 0x77;
    node_a.add_envelope(env);
    let mut node_b = GossipState::new();
    node_b.add_envelope(mock_envelope(0x10));
    let resp = node_a.handle_sync_request(&node_b.generate_sync_request());
    assert!(resp.missing_envelopes.is_empty(), "same first four bytes count as known");
}

// ── GossipScheduler ─────────────────────────────────────────────────────────

fn scheduler_with_last_round_ago(ago_ms: u64) -> GossipScheduler {
    let mut s = GossipScheduler::new();
    s.last_round_time = s.now_millis() - ago_ms;
    s
}

fn scheduler_idle_for(idle_ms: u64) -> GossipScheduler {
    let mut s = GossipScheduler::new();
    s.last_active_msg_time = s.now_millis() - idle_ms;
    s
}

#[test]
fn test_new_scheduler_is_not_idle() {
    let s = GossipScheduler::new();
    assert!(!s.is_idle());
}

#[test]
fn test_becomes_idle_after_timeout() {
    let s = scheduler_idle_for((IDLE_TIMEOUT_SEC + 1) * 1000);
    assert!(s.is_idle());
}

#[test]
fn test_not_idle_just_before_timeout() {
    let s = scheduler_idle_for((IDLE_TIMEOUT_SEC - 1) * 1000);
    assert!(!s.is_idle());
}

#[test]
fn test_record_activity_resets_idle_timer() {
    let mut s = scheduler_idle_for((IDLE_TIMEOUT_SEC + 5) * 1000);
    assert!(s.is_idle());
    s.record_activity();
    assert!(!s.is_idle());
}

#[test]
fn test_active_round_triggers_after_active_interval() {
    let s = scheduler_with_last_round_ago(ACTIVE_ROUND_INTERVAL_MS + 10);
    assert!(s.is_time_for_round());
}

#[test]
fn test_active_round_does_not_trigger_too_early() {
    let s = scheduler_with_last_round_ago(100);
    assert!(!s.is_time_for_round());
}

#[test]
fn test_idle_round_triggers_after_idle_interval() {
    let mut s = scheduler_idle_for((IDLE_TIMEOUT_SEC + 1) * 1000);
    s.last_round_time = s.now_millis() - (IDLE_ROUND_INTERVAL_MS + 10);
    assert!(s.is_time_for_round());
}

#[test]
fn test_idle_round_does_not_trigger_too_early() {
    let mut s = scheduler_idle_for((IDLE_TIMEOUT_SEC + 1) * 1000);
    s.last_round_time = s.now_millis() - 1000;
    assert!(!s.is_time_for_round());
}

#[test]
fn test_round_executed_resets_round_timer() {
    let mut s = scheduler_with_last_round_ago(ACTIVE_ROUND_INTERVAL_MS + 50);
    assert!(s.is_time_for_round());
    s.round_executed();
    assert!(!s.is_time_for_round());
}

#[test]
fn test_current_interval_active() {
    let s = GossipScheduler::new();
    assert_eq!(s.current_interval(), ACTIVE_ROUND_INTERVAL_MS);
}

#[test]
fn test_current_interval_idle() {
    let s = scheduler_idle_for((IDLE_TIMEOUT_SEC + 1) * 1000);
    assert_eq!(s.current_interval(), IDLE_ROUND_INTERVAL_MS);
}

#[test]
fn test_adaptive_transition_active_to_idle_to_active() {
    let mut s = GossipScheduler::new();
    assert!(!s.is_idle());
    s.last_active_msg_time = s.now_millis() - (IDLE_TIMEOUT_SEC + 1) * 1000;
    assert!(s.is_idle());
    s.record_activity();
    assert!(!s.is_idle());
}

#[test]
fn test_idle_boundary_is_exactly_the_timeout() {
    let s = GossipScheduler::new_at(1_000_000);
    assert!(!s.is_idle_at(1_000_000 + IDLE_TIMEOUT_SEC * 1000 - 1));
    assert!(s.is_idle_at(1_000_000 + IDLE_TIMEOUT_SEC * 1000));
    assert_eq!(s.current_interval_at(1_000_000), 500);
    assert_eq!(s.current_interval_at(1_000_000 + 30_000), 5_000);
}

#[test]
fn test_round_timer_runs_a_due_round_once() {
    let mut s = GossipScheduler::new_at(10_000);
    assert!(!s.on_round_timer_at(10_499));
    assert_eq!(s.last_round_time, 10_000);
    assert!(s.on_round_timer_at(10_500));
    assert_eq!(s.last_round_time, 10_500);
    assert!(!s.on_round_timer_at(10_501), "just ran");
    assert_eq!(s.last_active_msg_time, 10_000);
}

#[test]
fn test_clock_running_backwards_counts_as_no_time_passed() {
    let s = GossipScheduler::new_at(50_000);
    assert!(!s.is_idle_at(1_000));
    assert!(!s.is_time_for_round_at(1_000));
}

// ── Bloom filters ───────────────────────────────────────────────────────────

fn bitmap_size(items: usize, fp_rate: f64) -> usize {
    Bloom::<[u8; 32]>::compute_bitmap_size(items, fp_rate)
}

#[test]
fn test_message_filter() {
    let mut filter = MessageFilter::with_bitmap_size(100, bitmap_size(100, 0.01));
    let msg1 = [1u8; 32];
    let msg2 = [2u8; 32];

    assert_eq!(filter.check_and_add(&msg1), false);
    assert_eq!(filter.check_and_add(&msg1), true);
    assert_eq!(filter.check_and_add(&msg2), false);
    assert_eq!(filter.check_and_add(&msg2), true);
}

/// One run of the rotation scenario on fresh filters. Every answer it expects is
/// checked; `None` means a new id met a false positive (the filters are seeded at
/// random), which says nothing about the rotation.
fn rotation_scenario() -> Option<usize> {
    let mut filter = SlidingBloomFilter::with_bitmap_size(10, bitmap_size(10, 0.01));

    for i in 0..10 {
        let mut msg = [0u8; 32];
        msg[0] = i as u8;
        if filter.check_and_add(&msg) {
            return None;
        }
    }

    // The next new id rotates the full window out.
    let mut msg11 = [0u8; 32];
    msg11[0] = 11;
    if filter.check_and_add(&msg11) {
        return None;
    }

    // Old ids are still recognized: they are in the previous window now.
    let mut msg0 = [0u8; 32];
    msg0[0] = 0;
    assert_eq!(filter.check_and_add(&msg0), true);

    for i in 12..22 {
        let mut msg = [0u8; 32];
        msg[0] = i as u8;
        if filter.check_and_add(&msg) {
            return None;
        }
    }

    // 11 went into the fresh window (count 1), 12..=20 filled it to 10, and 21 rotated
    // it out and started a new one.
    Some(filter.insert_count())
}

#[test]
fn test_sliding_bloom_filter_rotation() {
    for _attempt in 0..8 {
        if let Some(count) = rotation_scenario() {
            assert_eq!(count, 1);
            return;
        }
    }
    panic!("every run met a false positive");
}

#[test]
fn test_false_positive_rate() {
    let mut filter = SlidingBloomFilter::with_bitmap_size(1000, bitmap_size(1000, 0.05));
    let mut false_positives = 0;

    for i in 0..1000u32 {
        let mut msg = [0u8; 32];
        let bytes = i.to_le_bytes();
        msg[0..4].copy_from_slice(&bytes);
        filter.check_and_add(&msg);
    }

    for i in 1000..2000u32 {
        let mut msg = [0u8; 32];
        let bytes = i.to_le_bytes();
        msg[0..4].copy_from_slice(&bytes);
        if filter.check_and_add(&msg) {
            false_positives += 1;
        }
    }

    let fp_rate = false_positives as f64 / 1000.0;
    assert!(fp_rate <= 0.10, "False positive rate too high: {}", fp_rate);
}

#[test]
fn test_seen_message_is_always_reported_again() {
    let mut filter = SlidingBloomFilter::with_bitmap_size(50, bitmap_size(50, 0.01));
    let msg = [0x5Au8; 32];
    filter.check_and_add(&msg);
    for i in 0..49u32 {
        let mut other = [0u8; 32];
        other[0..4].copy_from_slice(&i.to_le_bytes());
        filter.check_and_add(&other);
        assert!(filter.check_and_add(&msg), "still remembered after {} more", i + 1);
    }
}

#[test]
fn test_sliding_filter_counts_inserts() {
    let mut filter = SlidingBloomFilter::with_bitmap_size(4, bitmap_size(4, 0.01));
    assert_eq!(filter.insert_count(), 0);
    filter.check_and_add(&[1u8; 32]);
    filter.check_and_add(&[2u8; 32]);
    assert_eq!(filter.insert_count(), 2);
}

#[test]
fn test_scheduler_clock_starts_at_its_base_and_never_goes_back() {
    let s = GossipScheduler::new_at(1_000_000);
    let a = s.now_millis();
    let b = s.now_millis();
    assert!(a >= 1_000_000);
    assert!(b >= a);
    assert!(a < 1_000_000 + 60_000);
}

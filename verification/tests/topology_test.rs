use stellarconduit_core::message::types::TopologyUpdate;
use stellarconduit_core::topology::{
    graph::MeshGraph,
    health::{message_cutoff, EDGE_TIMEOUT, MSG_MAX_AGE, PEER_TIMEOUT, PRUNE_INTERVAL},
    hop_counter::{HopCounter, UNKNOWN_HOPS},
};

fn pk(b: u8) -> [u8; 32] {
    [b; 32]
}

// ── HopCounter ──────────────────────────────────────────────────────────────

#[test]
fn returns_unknown_when_no_neighbors_known() {
    let hc = HopCounter::new();
    assert_eq!(hc.local_hop_count(&[pk(2)]), 255);
}

#[test]
fn returns_one_when_neighbor_is_relay() {
    let mut hc = HopCounter::new();
    hc.update_distance(pk(2), 0);
    assert_eq!(hc.local_hop_count(&[pk(2)]), 1);
}

#[test]
fn picks_min_plus_one() {
    let mut hc = HopCounter::new();
    hc.update_distance(pk(2), 5);
    hc.update_distance(pk(3), 3);
    hc.update_distance(pk(4), 7);
    assert_eq!(hc.local_hop_count(&[pk(2), pk(3), pk(5)]), 4);
}

#[test]
fn later_update_replaces_distance() {
    let mut hc = HopCounter::new();
    hc.update_distance(pk(2), 5);
    hc.update_distance(pk(2), 9);
    assert_eq!(hc.distance_of(&pk(2)), Some(9));
    assert_eq!(hc.local_hop_count(&[pk(2)]), 10);
}

#[test]
fn neighbors_known_as_unreachable_give_unknown() {
    let mut hc = HopCounter::new();
    hc.update_distance(pk(2), UNKNOWN_HOPS);
    hc.update_distance(pk(3), 254);
    assert_eq!(hc.local_hop_count(&[pk(2)]), UNKNOWN_HOPS);
    assert_eq!(hc.local_hop_count(&[pk(2), pk(3)]), 255);
    assert_eq!(hc.local_hop_count(&[]), UNKNOWN_HOPS);
}

// ── Pruning thresholds ─────────────────────────────────────────────────────

#[test]
fn pruning_constants_are_reasonable() {
    assert!(PEER_TIMEOUT < EDGE_TIMEOUT, "edges should outlast peer timeouts");
    assert!(EDGE_TIMEOUT < MSG_MAX_AGE, "messages live longer than edges");
    assert!(PRUNE_INTERVAL < PEER_TIMEOUT, "pruner runs before first expiry");
}

#[test]
fn message_cutoff_is_a_day_back_and_saturates() {
    assert_eq!(message_cutoff(100_000), 100_000 - 86_400);
    assert_eq!(message_cutoff(1_000), 0);
}

// ── MeshGraph ───────────────────────────────────────────────────────────────

#[test]
fn graph_records_one_report_per_origin() {
    let mut graph = MeshGraph::new();
    graph.apply_update_at(
        &TopologyUpdate { origin_pubkey: pk(1), directly_connected_peers: vec![pk(2)], hops_to_relay: 3 },
        100,
    );
    graph.apply_update_at(
        &TopologyUpdate {
            origin_pubkey: pk(1),
            directly_connected_peers: vec![pk(3), pk(4)],
            hops_to_relay: 3,
        },
        200,
    );
    assert_eq!(graph.node_count(), 1);
    assert_eq!(graph.get_neighbors(&pk(1)), Some(&vec![pk(3), pk(4)]));
    assert_eq!(graph.get_neighbors(&pk(2)), None);
}

#[test]
fn graph_prunes_only_stale_reports() {
    let mut graph = MeshGraph::new();
    graph.apply_update_at(
        &TopologyUpdate { origin_pubkey: pk(1), directly_connected_peers: vec![pk(2)], hops_to_relay: 1 },
        1_000,
    );
    graph.apply_update_at(
        &TopologyUpdate { origin_pubkey: pk(5), directly_connected_peers: vec![pk(6)], hops_to_relay: 1 },
        4_000,
    );
    let removed = graph.prune_stale_edges_at(EDGE_TIMEOUT, 1_000 + EDGE_TIMEOUT + 1);
    assert_eq!(removed, 1);
    assert_eq!(graph.node_count(), 1);
    assert!(graph.get_neighbors(&pk(1)).is_none());
    assert!(graph.get_neighbors(&pk(5)).is_some());
}

#[test]
fn backdated_report_is_pruned() {
    let mut graph = MeshGraph::new();
    graph.apply_update(&TopologyUpdate {
        origin_pubkey: pk(7),
        directly_connected_peers: vec![pk(8)],
        hops_to_relay: 1,
    });
    assert_eq!(graph.prune_stale_edges(EDGE_TIMEOUT), 0);
    graph.backdate_edge(&pk(7), EDGE_TIMEOUT + 10);
    assert_eq!(graph.prune_stale_edges(EDGE_TIMEOUT), 1);
    assert_eq!(graph.node_count(), 0);
}

#[test]
fn more_neighbours_never_raise_the_hop_count() {
    let mut hc = HopCounter::new();
    hc.update_distance(pk(2), 5);
    hc.update_distance(pk(3), 3);
    let fewer = hc.local_hop_count(&[pk(2)]);
    let more = hc.local_hop_count(&[pk(2), pk(9), pk(3)]);
    assert_eq!(fewer, 6);
    assert_eq!(more, 4);
    assert!(more <= fewer);
}

#[test]
fn hop_count_ignores_order_and_repeats() {
    let mut hc = HopCounter::new();
    hc.update_distance(pk(2), 5);
    hc.update_distance(pk(3), 3);
    assert_eq!(
        hc.local_hop_count(&[pk(2), pk(3), pk(2)]),
        hc.local_hop_count(&[pk(3), pk(2)])
    );
}

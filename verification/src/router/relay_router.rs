//! Choosing which peers a message is forwarded to.

use vstd::prelude::*;

use crate::router::path_finder::PathFinder;

verus! {

/// Picks the next hops for a message from the ranked active connections.
pub struct RelayRouter {
    path_finder: PathFinder,
}

impl Default for RelayRouter {
    fn default() -> (r: Self) {
        Self::new()
    }
}

impl RelayRouter {
    pub fn new() -> (r: Self) {
        RelayRouter { path_finder: PathFinder::new() }
    }

    /// Selects `target_fanout` peers to route to: the best-ranked ones, in rank order.
    /// All peers are returned when there are no more than `target_fanout`.
    pub fn select_next_hops(&self, target_fanout: usize, ranked_peers: &[[u8; 32]]) -> (r: Vec<
        [u8; 32],
    >)
        ensures
            r@ == ranked_peers@.take(
                if target_fanout < ranked_peers@.len() {
                    target_fanout as int
                } else {
                    ranked_peers@.len() as int
                },
            ),
    {
        let n = if target_fanout < ranked_peers.len() {
            target_fanout
        } else {
            ranked_peers.len()
        };
        let mut result: Vec<[u8; 32]> = Vec::new();
        let mut i: usize = 0;
        while i < n
            invariant
                i <= n,
                n <= ranked_peers@.len(),
                result@ == ranked_peers@.take(i as int),
            decreases n - i,
        {
            result.push(ranked_peers[i]);
            assert(ranked_peers@.take(i + 1) =~= ranked_peers@.take(i as int).push(
                ranked_peers@[i as int],
            ));
            i = i + 1;
        }
        result
    }
}

} // verus!

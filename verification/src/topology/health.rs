//! Thresholds for the background pruning of stale state, in seconds.

use vstd::prelude::*;

verus! {

/// Remove peers not seen in the last 30 minutes.
pub const PEER_TIMEOUT: u64 = 60 * 30;

/// Remove topology edges not refreshed in the last hour.
pub const EDGE_TIMEOUT: u64 = 60 * 60;

/// Drop pending messages older than 24 hours.
pub const MSG_MAX_AGE: u64 = 60 * 60 * 24;

/// How often the pruner wakes up to sweep.
pub const PRUNE_INTERVAL: u64 = 60 * 5;

/// The cutoff below which a pending message created before `now` is expired:
/// `MSG_MAX_AGE` seconds earlier, or the epoch.
pub fn message_cutoff(now: u64) -> (r: u64)
    ensures
        r == (if now >= MSG_MAX_AGE {
            now - MSG_MAX_AGE
        } else {
            0
        }),
{
    now.saturating_sub(MSG_MAX_AGE)
}

/// The sweep runs before a peer can expire, edges outlive peers, and messages outlive edges.
pub proof fn lemma_pruning_thresholds_ordered()
    ensures
        PRUNE_INTERVAL < PEER_TIMEOUT,
        PEER_TIMEOUT < EDGE_TIMEOUT,
        EDGE_TIMEOUT < MSG_MAX_AGE,
{
}

} // verus!

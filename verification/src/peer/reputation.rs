use vstd::prelude::*;

use crate::peer::peer_node::{Peer, MAX_REPUTATION};

verus! {

/// Misbehaviour that costs a peer reputation.
pub enum PenaltyReason {
    InvalidSignature,
    DuplicateMessageFlood,
    ConnectionDropped,
}

/// Good behaviour that earns a peer reputation.
pub enum RewardReason {
    SuccessfullyRoutedTx,
    ValidNewGossipEnvelope,
}

/// Points deducted for each kind of misbehaviour.
pub open spec fn penalty_points(reason: PenaltyReason) -> u32 {
    match reason {
        PenaltyReason::InvalidSignature => 20,
        PenaltyReason::DuplicateMessageFlood => 10,
        PenaltyReason::ConnectionDropped => 2,
    }
}

/// Points granted for each kind of good behaviour.
pub open spec fn reward_points(reason: RewardReason) -> u32 {
    match reason {
        RewardReason::SuccessfullyRoutedTx => 5,
        RewardReason::ValidNewGossipEnvelope => 2,
    }
}

/// Reputation after a penalty: the points are taken off, never below zero.
pub open spec fn penalized_reputation(reputation: u32, reason: PenaltyReason) -> u32 {
    if reputation >= penalty_points(reason) {
        (reputation - penalty_points(reason)) as u32
    } else {
        0
    }
}

/// Reputation after a reward: the points are added, never above the maximum.
pub open spec fn rewarded_reputation(reputation: u32, reason: RewardReason) -> u32 {
    if reputation + reward_points(reason) <= MAX_REPUTATION {
        (reputation + reward_points(reason)) as u32
    } else {
        MAX_REPUTATION
    }
}

impl PenaltyReason {
    fn points(&self) -> (r: u32)
        ensures
            r == penalty_points(*self),
    {
        match self {
            PenaltyReason::InvalidSignature => 20,
            PenaltyReason::DuplicateMessageFlood => 10,
            PenaltyReason::ConnectionDropped => 2,
        }
    }
}

impl RewardReason {
    fn points(&self) -> (r: u32)
        ensures
            r == reward_points(*self),
    {
        match self {
            RewardReason::SuccessfullyRoutedTx => 5,
            RewardReason::ValidNewGossipEnvelope => 2,
        }
    }
}

/// Takes the penalty's points off the peer's reputation (saturating at zero) and bans
/// the peer once its reputation is zero. Nothing else about the peer changes.
pub fn apply_penalty(peer: &mut Peer, reason: PenaltyReason)
    ensures
        final(peer).reputation == penalized_reputation(old(peer).reputation, reason),
        final(peer).is_banned == (old(peer).is_banned || final(peer).reputation == 0),
        final(peer).identity == old(peer).identity,
        final(peer).last_seen_unix_sec == old(peer).last_seen_unix_sec,
        final(peer).supported_transports == old(peer).supported_transports,
        final(peer).is_relay_node == old(peer).is_relay_node,
        final(peer).bytes_sent == old(peer).bytes_sent,
        final(peer).bytes_received == old(peer).bytes_received,
{
    let penalty = reason.points();
    peer.reputation = peer.reputation.saturating_sub(penalty);
    if peer.reputation == 0 {
        peer.is_banned = true;
    }
}

/// Adds the reward's points to the peer's reputation, capped at the maximum.
/// Nothing else about the peer changes.
pub fn apply_reward(peer: &mut Peer, reason: RewardReason)
    requires
        old(peer).reputation + reward_points(reason) <= u32::MAX,
    ensures
        final(peer).reputation == rewarded_reputation(old(peer).reputation, reason),
        final(peer).is_banned == old(peer).is_banned,
        final(peer).identity == old(peer).identity,
        final(peer).last_seen_unix_sec == old(peer).last_seen_unix_sec,
        final(peer).supported_transports == old(peer).supported_transports,
        final(peer).is_relay_node == old(peer).is_relay_node,
        final(peer).bytes_sent == old(peer).bytes_sent,
        final(peer).bytes_received == old(peer).bytes_received,
{
    let reward = reason.points();
    let raised = peer.reputation + reward;
    peer.reputation = if raised < MAX_REPUTATION { raised } else { MAX_REPUTATION };
}

/// A reputation within `0..=100` stays within it under any penalty or reward.
pub proof fn lemma_reputation_stays_in_range(reputation: u32, p: PenaltyReason, r: RewardReason)
    requires
        reputation <= MAX_REPUTATION,
    ensures
        penalized_reputation(reputation, p) <= MAX_REPUTATION,
        rewarded_reputation(reputation, r) <= MAX_REPUTATION,
{
}

/// A penalty never raises reputation and a reward never lowers it.
pub proof fn lemma_penalty_lowers_reward_raises(reputation: u32, p: PenaltyReason, r: RewardReason)
    ensures
        penalized_reputation(reputation, p) <= reputation,
        reputation <= MAX_REPUTATION ==> reputation <= rewarded_reputation(reputation, r),
{
}

/// Every penalty costs at least one point, so a peer that keeps misbehaving
/// reaches zero reputation: after `reputation` penalties it is at zero.
pub proof fn lemma_repeated_penalties_reach_zero(reputation: u32, p: PenaltyReason, n: nat)
    requires
        n >= reputation,
    ensures
        repeated_penalty(reputation, p, n) == 0,
    decreases n,
{
    if n > 0 && reputation > 0 {
        lemma_repeated_penalties_reach_zero(penalized_reputation(reputation, p), p, (n - 1) as nat);
    } else if n > 0 {
        lemma_zero_stays_zero(p, (n - 1) as nat);
    }
}

proof fn lemma_zero_stays_zero(p: PenaltyReason, n: nat)
    ensures
        repeated_penalty(0, p, n) == 0,
    decreases n,
{
    if n > 0 {
        lemma_zero_stays_zero(p, (n - 1) as nat);
    }
}

/// Reputation after the same penalty is applied `n` times in a row.
pub open spec fn repeated_penalty(reputation: u32, p: PenaltyReason, n: nat) -> u32
    decreases n,
{
    if n == 0 {
        reputation
    } else {
        repeated_penalty(penalized_reputation(reputation, p), p, (n - 1) as nat)
    }
}

} // verus!

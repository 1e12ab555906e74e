//! Gossip round scheduling logic. Times are milliseconds on the scheduler's own clock:
//! the wall-clock time (since the Unix epoch) when it was made, advanced from then on by
//! the monotonic clock, so it never runs backwards.

use vstd::prelude::*;

use crate::clock::{now_unix_millis, MonotonicClock};

verus! {

pub const ACTIVE_ROUND_INTERVAL_MS: u64 = 500;

pub const IDLE_ROUND_INTERVAL_MS: u64 = 5_000;

pub const IDLE_TIMEOUT_SEC: u64 = 30;

/// The idle timeout in milliseconds.
pub const IDLE_TIMEOUT_MS: u64 = IDLE_TIMEOUT_SEC * 1000;

/// Milliseconds from `then` to `now`, zero when `then` is later.
pub open spec fn millis_since(now: u64, then: u64) -> u64 {
    if now >= then {
        (now - then) as u64
    } else {
        0
    }
}

/// Decides when the next gossip round is due, slowing down while the node is idle.
pub struct GossipScheduler {
    /// When the last round ran
    pub last_round_time: u64,
    /// When the last message activity was seen
    pub last_active_msg_time: u64,
    /// The clock the times are read from
    pub clock: MonotonicClock,
}

impl GossipScheduler {
    /// Whether no activity has been seen for the idle timeout at `now`.
    pub open spec fn idle_at(&self, now: u64) -> bool {
        millis_since(now, self.last_active_msg_time) >= IDLE_TIMEOUT_MS
    }

    /// The round interval in force at `now`.
    pub open spec fn interval_at(&self, now: u64) -> u64 {
        if self.idle_at(now) {
            IDLE_ROUND_INTERVAL_MS
        } else {
            ACTIVE_ROUND_INTERVAL_MS
        }
    }

    /// Whether a round is due at `now`: the interval in force has passed since the last one.
    pub open spec fn round_due_at(&self, now: u64) -> bool {
        millis_since(now, self.last_round_time) >= self.interval_at(now)
    }

    /// A scheduler whose clock reads `now` as it is made, and whose last round and last
    /// activity are both `now`.
    pub fn new_at(now: u64) -> (r: Self)
        ensures
            r.last_round_time == now,
            r.last_active_msg_time == now,
    {
        GossipScheduler {
            last_round_time: now,
            last_active_msg_time: now,
            clock: MonotonicClock::starting_at(now),
        }
    }

    /// The current time on the scheduler's clock.
    pub fn now_millis(&self) -> (r: u64) {
        self.clock.now_millis()
    }

    /// Creates a new GossipScheduler initialized to the current wall-clock time.
    pub fn new() -> (r: Self)
        ensures
            r.last_round_time == r.last_active_msg_time,
    {
        Self::new_at(now_unix_millis())
    }

    /// Records message activity at `now`.
    pub fn record_activity_at(&mut self, now: u64)
        ensures
            final(self).last_active_msg_time == now,
            final(self).last_round_time == old(self).last_round_time,
    {
        self.last_active_msg_time = now;
    }

    /// Records message activity at the current time.
    pub fn record_activity(&mut self)
        ensures
            final(self).last_round_time == old(self).last_round_time,
    {
        let now = self.now_millis();
        self.record_activity_at(now);
    }

    /// Whether a round is due at `now`.
    pub fn is_time_for_round_at(&self, now: u64) -> (r: bool)
        ensures
            r == self.round_due_at(now),
    {
        let interval = self.current_interval_at(now);
        now.saturating_sub(self.last_round_time) >= interval
    }

    /// Whether a round is due now.
    pub fn is_time_for_round(&self) -> (r: bool)
        ensures
            exists|now: u64| r == #[trigger] self.round_due_at(now),
    {
        self.is_time_for_round_at(self.now_millis())
    }

    /// Records that a round ran at `now`.
    pub fn round_executed_at(&mut self, now: u64)
        ensures
            final(self).last_round_time == now,
            final(self).last_active_msg_time == old(self).last_active_msg_time,
    {
        self.last_round_time = now;
    }

    /// Records that a round ran just now.
    pub fn round_executed(&mut self)
        ensures
            final(self).last_active_msg_time == old(self).last_active_msg_time,
    {
        let now = self.now_millis();
        self.round_executed_at(now);
    }

    /// One wake-up of the gossip loop's round timer at `now`. When a round is due it is
    /// recorded as run at `now` and `true` tells the caller to run it; otherwise nothing
    /// changes and `false` is returned.
    pub fn on_round_timer_at(&mut self, now: u64) -> (r: bool)
        ensures
            r == old(self).round_due_at(now),
            final(self).last_round_time == (if r {
                now
            } else {
                old(self).last_round_time
            }),
            final(self).last_active_msg_time == old(self).last_active_msg_time,
    {
        if self.is_time_for_round_at(now) {
            self.round_executed_at(now);
            true
        } else {
            false
        }
    }

    /// Whether the node is idle at `now`.
    pub fn is_idle_at(&self, now: u64) -> (r: bool)
        ensures
            r == self.idle_at(now),
    {
        now.saturating_sub(self.last_active_msg_time) >= IDLE_TIMEOUT_MS
    }

    /// Whether the node is idle now.
    pub fn is_idle(&self) -> (r: bool)
        ensures
            exists|now: u64| r == #[trigger] self.idle_at(now),
    {
        self.is_idle_at(self.now_millis())
    }

    /// The round interval, in milliseconds, in force at `now`.
    pub fn current_interval_at(&self, now: u64) -> (r: u64)
        ensures
            r == self.interval_at(now),
    {
        if self.is_idle_at(now) {
            IDLE_ROUND_INTERVAL_MS
        } else {
            ACTIVE_ROUND_INTERVAL_MS
        }
    }

    /// The round interval, in milliseconds, in force now: the idle interval while idle,
    /// the active one otherwise.
    pub fn current_interval(&self) -> (r: u64)
        ensures
            exists|now: u64| r == #[trigger] self.interval_at(now),
            r == ACTIVE_ROUND_INTERVAL_MS || r == IDLE_ROUND_INTERVAL_MS,
    {
        self.current_interval_at(self.now_millis())
    }
}

impl Default for GossipScheduler {
    fn default() -> (r: Self)
        ensures
            r.last_round_time == r.last_active_msg_time,
    {
        Self::new()
    }
}

/// Activity keeps the node out of idle mode for the whole idle timeout.
pub proof fn lemma_activity_resets_idle(s: GossipScheduler, t: u64, later: u64)
    requires
        s.last_active_msg_time == t,
        t <= later < t + IDLE_TIMEOUT_MS,
    ensures
        !s.idle_at(later),
        s.interval_at(later) == ACTIVE_ROUND_INTERVAL_MS,
{
}

/// After a round, no further round is due until at least the active interval has passed.
pub proof fn lemma_round_resets_timer(s: GossipScheduler, t: u64, later: u64)
    requires
        s.last_round_time == t,
        t <= later < t + ACTIVE_ROUND_INTERVAL_MS,
    ensures
        !s.round_due_at(later),
{
}

/// An idle node waits the idle interval between rounds; an active one the active interval.
pub proof fn lemma_interval_follows_idleness(s: GossipScheduler, now: u64)
    ensures
        s.idle_at(now) ==> (s.round_due_at(now) <==> millis_since(now, s.last_round_time)
            >= IDLE_ROUND_INTERVAL_MS),
        !s.idle_at(now) ==> (s.round_due_at(now) <==> millis_since(now, s.last_round_time)
            >= ACTIVE_ROUND_INTERVAL_MS),
{
}

} // verus!

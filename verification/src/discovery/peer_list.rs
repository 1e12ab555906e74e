use vstd::prelude::*;

use crate::bytes::keys_equal;
use crate::clock::now_unix_sec;
use crate::discovery::events::DiscoveryEvent;
use crate::peer::peer_node::{Peer, MAX_REPUTATION};

verus! {

broadcast use vstd::seq_lib::group_seq_properties;

/// Seconds elapsed from `then` to `now`, zero if `then` lies in the future.
pub open spec fn seconds_since(now: u64, then: u64) -> u64 {
    if now >= then {
        (now - then) as u64
    } else {
        0
    }
}

/// A peer is active at `now` while no more than `expiry` seconds have passed since it was seen.
pub open spec fn is_active(p: Peer, now: u64, expiry: u64) -> bool {
    seconds_since(now, p.last_seen_unix_sec) <= expiry
}

/// The peers of `peers` still active at `now`, in order.
pub open spec fn active_peers(peers: Seq<Peer>, now: u64, expiry: u64) -> Seq<Peer> {
    peers.filter(|p: Peer| is_active(p, now, expiry))
}

/// The peers of `peers` no longer active at `now`, in order.
pub open spec fn stale_peers(peers: Seq<Peer>, now: u64, expiry: u64) -> Seq<Peer> {
    peers.filter(|p: Peer| !is_active(p, now, expiry))
}

/// `p` as a brand-new peer record for `pubkey`, seen at `now`.
pub open spec fn is_fresh_peer(p: Peer, pubkey: [u8; 32], now: u64) -> bool {
    &&& p.identity.pubkey == pubkey
    &&& p.identity_wf()
    &&& p.reputation == MAX_REPUTATION
    &&& !p.is_banned
    &&& p.last_seen_unix_sec == now
    &&& p.supported_transports == 0
    &&& !p.is_relay_node
    &&& p.bytes_sent == 0
    &&& p.bytes_received == 0
}

/// `p` with its last-seen time set to `now`.
pub open spec fn seen_at(p: Peer, now: u64) -> Peer {
    Peer { last_seen_unix_sec: now, ..p }
}

/// Whether some peer in `peers` has public key `pubkey`.
pub open spec fn contains_key(peers: Seq<Peer>, pubkey: [u8; 32]) -> bool {
    exists|i: int| 0 <= i < peers.len() && #[trigger] peers[i].identity.pubkey == pubkey
}

/// How one beacon from `pubkey` at `now` changes the peer records `before` into `after`,
/// and the event `r` it reports: a known key gets `now` as its last-seen time and
/// `PeerUpdated`; an unknown key is appended as a fresh record and `PeerDiscovered`.
pub open spec fn beacon_recorded(
    before: Seq<Peer>,
    after: Seq<Peer>,
    pubkey: [u8; 32],
    signal_strength: u8,
    now: u64,
    r: Option<DiscoveryEvent>,
) -> bool {
    &&& forall|i: int|
        0 <= i < before.len() && #[trigger] before[i].identity.pubkey == pubkey ==> {
            &&& after == before.update(i, seen_at(before[i], now))
            &&& r == Some(DiscoveryEvent::PeerUpdated(before[i].identity, signal_strength))
        }
    &&& !contains_key(before, pubkey) ==> {
        &&& after.len() == before.len() + 1
        &&& after.drop_last() == before
        &&& is_fresh_peer(after.last(), pubkey, now)
        &&& r == Some(DiscoveryEvent::PeerDiscovered(after.last().identity))
    }
}

/// `events` reports, in order, the loss of each peer of `lost`.
pub open spec fn lost_events(events: Seq<DiscoveryEvent>, lost: Seq<Peer>) -> bool {
    &&& events.len() == lost.len()
    &&& forall|i: int|
        0 <= i < events.len() ==> #[trigger] events[i] == DiscoveryEvent::PeerLost(lost[i].identity)
}

proof fn lemma_filter_keeps_wf(peers: Seq<Peer>, keep: spec_fn(Peer) -> bool)
    requires
        forall|i: int, j: int|
            0 <= i < j < peers.len() ==> #[trigger] peers[i].identity.pubkey
                != #[trigger] peers[j].identity.pubkey,
        forall|i: int| 0 <= i < peers.len() ==> #[trigger] peers[i].identity_wf(),
    ensures
        forall|i: int, j: int|
            0 <= i < j < peers.filter(keep).len() ==> #[trigger] peers.filter(keep)[i].identity.pubkey
                != #[trigger] peers.filter(keep)[j].identity.pubkey,
        forall|i: int| 0 <= i < peers.filter(keep).len() ==> #[trigger] peers.filter(keep)[i].identity_wf(),
    decreases peers.len(),
{
    reveal_with_fuel(Seq::filter, 1);
    if peers.len() > 0 {
        let rest = peers.drop_last();
        lemma_filter_keeps_wf(rest, keep);
        let fr = rest.filter(keep);
        if keep(peers.last()) {
            assert forall|i: int| 0 <= i < fr.len() implies #[trigger] fr[i].identity.pubkey != peers.last().identity.pubkey by {
                rest.lemma_filter_contains_rev(keep, fr[i]);
                assert(fr.contains(fr[i]));
                let k = choose|k: int| 0 <= k < rest.len() && rest[k] == fr[i];
                assert(peers[k] == rest[k]);
                assert(peers[peers.len() - 1] == peers.last());
            }
        }
    }
}

/// The peers seen recently enough, keyed by public key.
pub struct PeerList {
    /// One record per public key, in the order they were first seen
    peers: Vec<Peer>,
    /// How many seconds before a peer is considered offline
    expiry_seconds: u64,
}

impl PeerList {
    /// The tracked peer records, in the order they were first seen.
    pub closed spec fn peers(&self) -> Seq<Peer> {
        self.peers@
    }

    /// The expiry window in seconds.
    pub closed spec fn expiry(&self) -> u64 {
        self.expiry_seconds
    }

    /// No public key occurs twice, and each identity is the one derived from its key.
    pub open spec fn wf(&self) -> bool {
        &&& forall|i: int, j: int|
            0 <= i < j < self.peers().len() ==> #[trigger] self.peers()[i].identity.pubkey
                != #[trigger] self.peers()[j].identity.pubkey
        &&& forall|i: int| 0 <= i < self.peers().len() ==> #[trigger] self.peers()[i].identity_wf()
    }

    /// An empty list with the given expiry window.
    pub fn new(expiry_seconds: u64) -> (r: Self)
        ensures
            r.wf(),
            r.peers() == Seq::<Peer>::empty(),
            r.expiry() == expiry_seconds,
    {
        PeerList { peers: Vec::new(), expiry_seconds }
    }

    fn find(&self, pubkey: &[u8; 32]) -> (r: Option<usize>)
        ensures
            match r {
                Some(i) => i < self.peers().len() && self.peers()[i as int].identity.pubkey
                    == *pubkey,
                None => !contains_key(self.peers(), *pubkey),
            },
    {
        let mut i: usize = 0;
        while i < self.peers.len()
            invariant
                i <= self.peers@.len(),
                forall|j: int| 0 <= j < i ==> self.peers@[j].identity.pubkey != *pubkey,
            decreases self.peers@.len() - i,
        {
            if keys_equal(&self.peers[i].identity.pubkey, pubkey) {
                return Some(i);
            }
            i = i + 1;
        }
        None
    }

    /// Records a beacon from `pubkey` received at time `now`.
    /// A known peer gets `now` as its last-seen time and `PeerUpdated` is returned with
    /// the signal strength; an unknown peer is appended as a fresh record seen at `now`
    /// and `PeerDiscovered` is returned.
    pub fn insert_or_update_at(&mut self, pubkey: [u8; 32], signal_strength: u8, now: u64) -> (r:
        Option<DiscoveryEvent>)
        requires
            old(self).wf(),
        ensures
            final(self).wf(),
            final(self).expiry() == old(self).expiry(),
            beacon_recorded(old(self).peers(), final(self).peers(), pubkey, signal_strength, now, r),
    {
        match self.find(&pubkey) {
            Some(i) => {
                let mut peer = self.peers.remove(i);
                peer.last_seen_unix_sec = now;
                let identity = peer.identity.copy();
                self.peers.insert(i, peer);
                assert(self.peers@ =~= old(self).peers@.update(
                    i as int,
                    seen_at(old(self).peers@[i as int], now),
                ));
                assert forall|k: int| 0 <= k < self.peers@.len() implies #[trigger] self.peers@[k].identity_wf() by {
                    assert(self.peers@[k].identity == old(self).peers()[k].identity);
                    assert(old(self).peers()[k].identity_wf());
                }
                assert forall|a: int, b: int|
                    0 <= a < b < self.peers@.len() implies #[trigger] self.peers@[a].identity.pubkey
                    != #[trigger] self.peers@[b].identity.pubkey by {
                    assert(old(self).peers()[a].identity.pubkey != old(self).peers()[b].identity.pubkey);
                }
                Some(DiscoveryEvent::PeerUpdated(identity, signal_strength))
            },
            None => {
                let mut peer = Peer::new(pubkey);
                peer.last_seen_unix_sec = now;
                let identity = peer.identity.copy();
                self.peers.push(peer);
                assert(self.peers@.drop_last() =~= old(self).peers@);
                assert forall|k: int| 0 <= k < self.peers@.len() implies #[trigger] self.peers@[k].identity_wf() by {
                    if k < old(self).peers@.len() {
                        assert(self.peers@[k] == old(self).peers()[k]);
                        assert(old(self).peers()[k].identity_wf());
                    }
                }
                assert forall|a: int, b: int|
                    0 <= a < b < self.peers@.len() implies #[trigger] self.peers@[a].identity.pubkey
                    != #[trigger] self.peers@[b].identity.pubkey by {
                    if b == old(self).peers@.len() {
                        assert(old(self).peers()[a].identity.pubkey != pubkey);
                    } else {
                        assert(old(self).peers()[a].identity.pubkey != old(self).peers()[b].identity.pubkey);
                    }
                }
                Some(DiscoveryEvent::PeerDiscovered(identity))
            },
        }
    }

    /// Insert a new peer or update the last-seen timestamp for an existing one,
    /// with the current wall-clock time; see `insert_or_update_at`.
    /// Returns `PeerDiscovered` for first contact, `PeerUpdated` for subsequent contacts.
    pub fn insert_or_update(&mut self, pubkey: [u8; 32], signal_strength: u8) -> (r: Option<
        DiscoveryEvent,
    >)
        requires
            old(self).wf(),
        ensures
            final(self).wf(),
            final(self).expiry() == old(self).expiry(),
            exists|now: u64|
                #[trigger] beacon_recorded(
                    old(self).peers(),
                    final(self).peers(),
                    pubkey,
                    signal_strength,
                    now,
                    r,
                ),
    {
        let now = now_unix_sec();
        self.insert_or_update_at(pubkey, signal_strength, now)
    }

    /// The peers whose last-seen time lies within the expiry window at `now`, in order.
    pub fn get_active_peers_at(&self, now: u64) -> (r: Vec<&Peer>)
        ensures
            r@.map_values(|p: &Peer| *p) == active_peers(self.peers(), now, self.expiry()),
    {
        let ghost pred = |p: Peer| is_active(p, now, self.expiry());
        let mut out: Vec<&Peer> = Vec::new();
        let mut i: usize = 0;
        while i < self.peers.len()
            invariant
                i <= self.peers@.len(),
                pred == (|p: Peer| is_active(p, now, self.expiry())),
                out@.map_values(|p: &Peer| *p) == self.peers@.take(i as int).filter(pred),
            decreases self.peers@.len() - i,
        {
            let p = &self.peers[i];
            let elapsed = now.saturating_sub(p.last_seen_unix_sec);
            proof {
                self.peers@.take(i as int).lemma_filter_push(self.peers@[i as int], pred);
                assert(self.peers@.take(i + 1) =~= self.peers@.take(i as int).push(
                    self.peers@[i as int],
                ));
            }
            if elapsed <= self.expiry_seconds {
                out.push(p);
                assert(out@.map_values(|p: &Peer| *p) =~= self.peers@.take(i as int).filter(
                    pred,
                ).push(self.peers@[i as int]));
            }
            i = i + 1;
        }
        assert(self.peers@.take(self.peers@.len() as int) =~= self.peers@);
        out
    }

    /// Returns only peers whose last-seen timestamp is within the expiry window,
    /// measured against the current wall-clock time.
    pub fn get_active_peers(&self) -> (r: Vec<&Peer>)
        ensures
            exists|now: u64|
                r@.map_values(|p: &Peer| *p) == #[trigger] active_peers(
                    self.peers(),
                    now,
                    self.expiry(),
                ),
    {
        let now = now_unix_sec();
        self.get_active_peers_at(now)
    }

    /// Removes the peers that are no longer active at `now` and returns one `PeerLost`
    /// event for each, in list order; the active peers stay, in order.
    pub fn prune_stale_peers_at(&mut self, now: u64) -> (r: Vec<DiscoveryEvent>)
        requires
            old(self).wf(),
        ensures
            final(self).wf(),
            final(self).expiry() == old(self).expiry(),
            final(self).peers() == active_peers(old(self).peers(), now, old(self).expiry()),
            lost_events(r@, stale_peers(old(self).peers(), now, old(self).expiry())),
    {
        let ghost keep = |p: Peer| is_active(p, now, self.expiry_seconds);
        let ghost drop = |p: Peer| !is_active(p, now, self.expiry_seconds);
        let ghost initial = self.peers@;
        let mut old_peers: Vec<Peer> = Vec::new();
        std::mem::swap(&mut old_peers, &mut self.peers);
        let mut events: Vec<DiscoveryEvent> = Vec::new();
        let expiry = self.expiry_seconds;
        for p in it: old_peers.into_iter()
            invariant
                it.seq() == initial,
                expiry == old(self).expiry_seconds,
                self.expiry_seconds == expiry,
                keep == (|p: Peer| is_active(p, now, expiry)),
                drop == (|p: Peer| !is_active(p, now, expiry)),
                self.peers@ == initial.take(it.index() as int).filter(keep),
                lost_events(events@, initial.take(it.index() as int).filter(drop)),
        {
            let ghost k = it.index();
            proof {
                initial.take(k as int).lemma_filter_push(initial[k as int], keep);
                initial.take(k as int).lemma_filter_push(initial[k as int], drop);
                assert(initial.take(k + 1) =~= initial.take(k as int).push(initial[k as int]));
            }
            if now.saturating_sub(p.last_seen_unix_sec) <= expiry {
                self.peers.push(p);
            } else {
                events.push(DiscoveryEvent::PeerLost(p.identity));
            }
        }
        proof {
            assert(initial.take(initial.len() as int) =~= initial);
            assert(initial == old(self).peers());
            lemma_filter_keeps_wf(initial, keep);
        }
        events
    }

    /// Removes stale peers (beyond expiry window) and returns a `PeerLost` event for each.
    pub fn prune_stale_peers(&mut self) -> (r: Vec<DiscoveryEvent>)
        requires
            old(self).wf(),
        ensures
            final(self).wf(),
            final(self).expiry() == old(self).expiry(),
            exists|now: u64|
                {
                    &&& final(self).peers() == #[trigger] active_peers(
                        old(self).peers(),
                        now,
                        old(self).expiry(),
                    )
                    &&& lost_events(r@, stale_peers(old(self).peers(), now, old(self).expiry()))
                },
    {
        let now = now_unix_sec();
        self.prune_stale_peers_at(now)
    }

    /// Returns total number of tracked peers (including stale ones not yet pruned).
    pub fn len(&self) -> (r: usize)
        ensures
            r == self.peers().len(),
    {
        self.peers.len()
    }

    /// Whether no peer is tracked.
    pub fn is_empty(&self) -> (r: bool)
        ensures
            r == (self.peers().len() == 0),
    {
        self.peers.len() == 0
    }

    /// Sets the last-seen time of the peer with `pubkey` to `ts`; no change if it is unknown.
    pub fn set_last_seen(&mut self, pubkey: &[u8; 32], ts: u64)
        requires
            old(self).wf(),
        ensures
            final(self).wf(),
            final(self).expiry() == old(self).expiry(),
            forall|i: int|
                0 <= i < old(self).peers().len() && old(self).peers()[i].identity.pubkey == *pubkey
                    ==> final(self).peers() == old(self).peers().update(
                    i,
                    seen_at(old(self).peers()[i], ts),
                ),
            !contains_key(old(self).peers(), *pubkey) ==> final(self).peers() == old(self).peers(),
    {
        if let Some(i) = self.find(pubkey) {
            let mut peer = self.peers.remove(i);
            peer.last_seen_unix_sec = ts;
            self.peers.insert(i, peer);
            assert(self.peers@ =~= old(self).peers@.update(
                i as int,
                seen_at(old(self).peers@[i as int], ts),
            ));
            assert forall|k: int| 0 <= k < self.peers@.len() implies #[trigger] self.peers@[k].identity_wf() by {
                assert(self.peers@[k].identity == old(self).peers()[k].identity);
                assert(old(self).peers()[k].identity_wf());
            }
            assert forall|a: int, b: int|
                0 <= a < b < self.peers@.len() implies #[trigger] self.peers@[a].identity.pubkey
                != #[trigger] self.peers@[b].identity.pubkey by {
                assert(old(self).peers()[a].identity.pubkey != old(self).peers()[b].identity.pubkey);
            }
        }
    }
}

} // verus!

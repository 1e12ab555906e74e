//! Distances, in hops, from known peers to the nearest relay.

use vstd::prelude::*;

use crate::bytes::keys_equal;

verus! {

/// Hop count that stands for "no known path to a relay".
pub const UNKNOWN_HOPS: u8 = 255;

/// The smallest distance known for any of `peers`, or `None` when none is known.
pub open spec fn min_known_distance(distances: Map<[u8; 32], u8>, peers: Seq<[u8; 32]>) -> Option<u8>
    decreases peers.len(),
{
    if peers.len() == 0 {
        None
    } else {
        let rest = min_known_distance(distances, peers.drop_last());
        let p = peers.last();
        if distances.contains_key(p) {
            match rest {
                Some(m) => Some(if distances[p] < m { distances[p] } else { m }),
                None => Some(distances[p]),
            }
        } else {
            rest
        }
    }
}

/// This node's own distance to a relay, one hop more than its nearest active
/// connection's; unknown when no connection's distance is known or it is unknown.
pub open spec fn local_hops(distances: Map<[u8; 32], u8>, active: Seq<[u8; 32]>) -> u8 {
    match min_known_distance(distances, active) {
        None => UNKNOWN_HOPS,
        Some(h) => if h == UNKNOWN_HOPS {
            UNKNOWN_HOPS
        } else {
            (h + 1) as u8
        },
    }
}

/// Known hop distances from peers to the nearest relay, one per peer.
pub struct HopCounter {
    entries: Vec<([u8; 32], u8)>,
    model: Ghost<Map<[u8; 32], u8>>,
}

impl View for HopCounter {
    type V = Map<[u8; 32], u8>;

    closed spec fn view(&self) -> Map<[u8; 32], u8> {
        self.model@
    }
}

impl Default for HopCounter {
    fn default() -> (r: Self)
        ensures
            r.wf(),
            r@ == Map::<[u8; 32], u8>::empty(),
    {
        Self::new()
    }
}

impl HopCounter {
    /// The entries are the map: one entry per key.
    pub closed spec fn wf(&self) -> bool {
        &&& forall|i: int, j: int|
            0 <= i < j < self.entries@.len() ==> #[trigger] self.entries@[i].0
                != #[trigger] self.entries@[j].0
        &&& forall|i: int|
            0 <= i < self.entries@.len() ==> #[trigger] self.model@.contains_key(
                self.entries@[i].0,
            ) && self.model@[self.entries@[i].0] == self.entries@[i].1
        &&& forall|k: [u8; 32]|
            #[trigger] self.model@.contains_key(k) ==> exists|i: int|
                0 <= i < self.entries@.len() && #[trigger] self.entries@[i].0 == k
    }

    /// No distances known.
    pub fn new() -> (r: Self)
        ensures
            r.wf(),
            r@ == Map::<[u8; 32], u8>::empty(),
    {
        HopCounter { entries: Vec::new(), model: Ghost(Map::empty()) }
    }

    fn find(&self, peer: &[u8; 32]) -> (r: Option<usize>)
        requires
            self.wf(),
        ensures
            match r {
                Some(i) => i < self.entries@.len() && self.entries@[i as int].0 == *peer,
                None => !self@.contains_key(*peer),
            },
    {
        let mut i: usize = 0;
        while i < self.entries.len()
            invariant
                i <= self.entries@.len(),
                forall|j: int| 0 <= j < i ==> self.entries@[j].0 != *peer,
            decreases self.entries@.len() - i,
        {
            if keys_equal(&self.entries[i].0, peer) {
                return Some(i);
            }
            i = i + 1;
        }
        None
    }

    /// Records that `peer` is `hops` hops from a relay, replacing what was known.
    pub fn update_distance(&mut self, peer: [u8; 32], hops: u8)
        requires
            old(self).wf(),
        ensures
            final(self).wf(),
            final(self)@ == old(self)@.insert(peer, hops),
    {
        match self.find(&peer) {
            Some(i) => {
                self.entries.set(i, (peer, hops));
                self.model = Ghost(self.model@.insert(peer, hops));
                assert forall|k: [u8; 32]| #[trigger] self.model@.contains_key(k) implies exists|j: int|
                    0 <= j < self.entries@.len() && #[trigger] self.entries@[j].0 == k by {
                    if k == peer {
                        assert(self.entries@[i as int].0 == k);
                    } else {
                        let j = choose|j: int|
                            0 <= j < old(self).entries@.len() && #[trigger] old(self).entries@[j].0 == k;
                        assert(self.entries@[j].0 == k);
                    }
                }
            },
            None => {
                self.entries.push((peer, hops));
                self.model = Ghost(self.model@.insert(peer, hops));
                assert forall|k: [u8; 32]| #[trigger] self.model@.contains_key(k) implies exists|j: int|
                    0 <= j < self.entries@.len() && #[trigger] self.entries@[j].0 == k by {
                    if k == peer {
                        assert(self.entries@[self.entries@.len() - 1].0 == k);
                    } else {
                        let j = choose|j: int|
                            0 <= j < old(self).entries@.len() && #[trigger] old(self).entries@[j].0 == k;
                        assert(self.entries@[j].0 == k);
                    }
                }
            },
        }
    }

    /// The known distance of `peer`, if any.
    pub fn distance_of(&self, peer: &[u8; 32]) -> (r: Option<u8>)
        requires
            self.wf(),
        ensures
            r == (if self@.contains_key(*peer) {
                Some(self@[*peer])
            } else {
                None
            }),
    {
        match self.find(peer) {
            Some(i) => Some(self.entries[i].1),
            None => None,
        }
    }

    /// This node's hop count to a relay: one more than the smallest known distance of
    /// its active connections, or 255 (unknown) when none is known or the smallest is
    /// itself unknown.
    pub fn local_hop_count(&self, active_connections: &[[u8; 32]]) -> (r: u8)
        requires
            self.wf(),
        ensures
            r == local_hops(self@, active_connections@),
            (forall|i: int|
                0 <= i < active_connections@.len() ==> !self@.contains_key(
                    #[trigger] active_connections@[i],
                )) ==> r == UNKNOWN_HOPS,
            forall|i: int|
                0 <= i < active_connections@.len() && self@.contains_key(
                    #[trigger] active_connections@[i],
                ) && self@[active_connections@[i]] < UNKNOWN_HOPS ==> r <= self@[active_connections@[i]]
                    + 1,
            r == UNKNOWN_HOPS || exists|i: int|
                0 <= i < active_connections@.len() && self@.contains_key(
                    #[trigger] active_connections@[i],
                ) && r == self@[active_connections@[i]] + 1,
    {
        proof {
            lemma_hops_are_nearest_plus_one(self@, active_connections@);
        }
        let mut min: Option<u8> = None;
        let mut i: usize = 0;
        while i < active_connections.len()
            invariant
                self.wf(),
                i <= active_connections@.len(),
                min == min_known_distance(self@, active_connections@.take(i as int)),
            decreases active_connections@.len() - i,
        {
            assert(active_connections@.take(i + 1).drop_last() =~= active_connections@.take(
                i as int,
            ));
            if let Some(h) = self.distance_of(&active_connections[i]) {
                min = Some(
                    match min {
                        Some(m) => if h < m {
                            h
                        } else {
                            m
                        },
                        None => h,
                    },
                );
            }
            i = i + 1;
        }
        assert(active_connections@.take(active_connections@.len() as int) =~= active_connections@);
        match min {
            None => UNKNOWN_HOPS,
            Some(h) => if h == UNKNOWN_HOPS {
                UNKNOWN_HOPS
            } else {
                h + 1
            },
        }
    }
}

/// What `min_known_distance` picks: nothing exactly when no peer's distance is known,
/// else the distance of a known peer that no known peer's distance undercuts.
proof fn lemma_min_known_distance(distances: Map<[u8; 32], u8>, peers: Seq<[u8; 32]>)
    ensures
        min_known_distance(distances, peers) is None <==> forall|i: int|
            0 <= i < peers.len() ==> !distances.contains_key(#[trigger] peers[i]),
        min_known_distance(distances, peers) matches Some(m) ==> {
            &&& exists|i: int|
                0 <= i < peers.len() && distances.contains_key(#[trigger] peers[i])
                    && distances[peers[i]] == m
            &&& forall|i: int|
                0 <= i < peers.len() && distances.contains_key(#[trigger] peers[i]) ==> m
                    <= distances[peers[i]]
        },
    decreases peers.len(),
{
    if peers.len() > 0 {
        let rest = peers.drop_last();
        lemma_min_known_distance(distances, rest);
        let last = peers.len() - 1;
        assert forall|i: int| 0 <= i < rest.len() implies rest[i] == peers[i] by {}
        assert(peers[last] == peers.last());
        match min_known_distance(distances, peers) {
            Some(m) => {
                if distances.contains_key(peers.last()) && (min_known_distance(distances, rest) is None
                    || distances[peers.last()] < min_known_distance(distances, rest)->0) {
                    assert(distances.contains_key(peers[last]) && distances[peers[last]] == m);
                } else {
                    let i = choose|i: int|
                        0 <= i < rest.len() && distances.contains_key(#[trigger] rest[i])
                            && distances[rest[i]] == m;
                    assert(peers[i] == rest[i]);
                }
                assert forall|i: int|
                    0 <= i < peers.len() && distances.contains_key(#[trigger] peers[i]) implies m
                    <= distances[peers[i]] by {
                    if i < last {
                        assert(rest[i] == peers[i]);
                    }
                }
            },
            None => {
                assert forall|i: int| 0 <= i < peers.len() implies !distances.contains_key(
                    #[trigger] peers[i],
                ) by {
                    if i < last {
                        assert(rest[i] == peers[i]);
                    }
                }
            },
        }
        if forall|i: int| 0 <= i < peers.len() ==> !distances.contains_key(#[trigger] peers[i]) {
            assert(!distances.contains_key(peers[last]));
            assert forall|i: int| 0 <= i < rest.len() implies !distances.contains_key(
                #[trigger] rest[i],
            ) by {
                assert(rest[i] == peers[i]);
            }
        }
    }
}

/// More neighbours never put this node farther from a relay: when every peer of `fewer`
/// is also among `more`, the hop count from `more` is at most the one from `fewer`.
pub proof fn lemma_more_neighbours_never_farther(
    distances: Map<[u8; 32], u8>,
    fewer: Seq<[u8; 32]>,
    more: Seq<[u8; 32]>,
)
    requires
        forall|i: int| 0 <= i < fewer.len() ==> more.contains(#[trigger] fewer[i]),
    ensures
        local_hops(distances, more) <= local_hops(distances, fewer),
{
    lemma_min_known_distance(distances, fewer);
    lemma_min_known_distance(distances, more);
    if let Some(mf) = min_known_distance(distances, fewer) {
        let i = choose|i: int|
            0 <= i < fewer.len() && distances.contains_key(#[trigger] fewer[i])
                && distances[fewer[i]] == mf;
        assert(more.contains(fewer[i]));
        let j = choose|j: int| 0 <= j < more.len() && more[j] == fewer[i];
        assert(distances.contains_key(more[j]));
        assert(min_known_distance(distances, more) is Some);
        let mm = min_known_distance(distances, more)->0;
        assert(mm <= distances[more[j]]);
    }
}

/// The order in which active connections are listed, and repeats among them, do not
/// change the hop count: two lists with the same peers give the same count.
pub proof fn lemma_hops_ignore_order_and_repeats(
    distances: Map<[u8; 32], u8>,
    a: Seq<[u8; 32]>,
    b: Seq<[u8; 32]>,
)
    requires
        forall|i: int| 0 <= i < a.len() ==> b.contains(#[trigger] a[i]),
        forall|j: int| 0 <= j < b.len() ==> a.contains(#[trigger] b[j]),
    ensures
        local_hops(distances, a) == local_hops(distances, b),
{
    lemma_more_neighbours_never_farther(distances, a, b);
    lemma_more_neighbours_never_farther(distances, b, a);
}

/// The hop count is one more than the distance of the nearest neighbour whose distance
/// is known: with no known neighbour it is unknown (255); it is never more than one past
/// any known neighbour's distance below 255; and unless it is unknown it is one past
/// some known neighbour's distance. Together these fix it: the nearest known distance
/// plus one, or 255 when that distance is itself 255 or none is known.
pub proof fn lemma_hops_are_nearest_plus_one(distances: Map<[u8; 32], u8>, active: Seq<[u8; 32]>)
    ensures
        (forall|i: int| 0 <= i < active.len() ==> !distances.contains_key(#[trigger] active[i]))
            ==> local_hops(distances, active) == UNKNOWN_HOPS,
        forall|i: int|
            0 <= i < active.len() && distances.contains_key(#[trigger] active[i])
                && distances[active[i]] < UNKNOWN_HOPS ==> local_hops(distances, active)
                <= distances[active[i]] + 1,
        local_hops(distances, active) == UNKNOWN_HOPS || exists|i: int|
            0 <= i < active.len() && distances.contains_key(#[trigger] active[i]) && local_hops(
                distances,
                active,
            ) == distances[active[i]] + 1,
{
    lemma_min_known_distance(distances, active);
    if let Some(m) = min_known_distance(distances, active) {
        let i = choose|i: int|
            0 <= i < active.len() && distances.contains_key(#[trigger] active[i])
                && distances[active[i]] == m;
        if m != UNKNOWN_HOPS {
            assert(local_hops(distances, active) == distances[active[i]] + 1);
        }
    }
}

} // verus!

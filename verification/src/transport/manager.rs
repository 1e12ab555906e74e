//! The table of open links kept by the connection manager: at most one connection per
//! peer key, and the transport preference the links are opened with.

use vstd::prelude::*;

use crate::bytes::keys_equal;
use crate::transport::unified::TransportPreference;

verus! {

/// Whether no two entries share a peer key.
pub open spec fn distinct_keys<C>(entries: Seq<([u8; 32], C)>) -> bool {
    forall|i: int, j: int| 0 <= i < j < entries.len() ==> entries[i].0 != entries[j].0
}

/// Whether some entry is for `key`.
pub open spec fn has_entry<C>(entries: Seq<([u8; 32], C)>, key: [u8; 32]) -> bool {
    exists|i: int| 0 <= i < entries.len() && #[trigger] entries[i].0 == key
}

/// The connection each peer key has in `entries`.
pub open spec fn entry_map<C>(entries: Seq<([u8; 32], C)>) -> Map<[u8; 32], C> {
    Map::new(
        |k: [u8; 32]| has_entry(entries, k),
        |k: [u8; 32]| entries[choose|i: int| 0 <= i < entries.len() && #[trigger] entries[i].0 == k].1,
    )
}

/// With distinct keys, the entry at `i` is what the map holds for its key.
proof fn lemma_entry_at<C>(entries: Seq<([u8; 32], C)>, i: int)
    requires
        distinct_keys(entries),
        0 <= i < entries.len(),
    ensures
        entry_map(entries).contains_key(entries[i].0),
        entry_map(entries)[entries[i].0] == entries[i].1,
{
    let k = entries[i].0;
    assert(has_entry(entries, k));
    let j = choose|j: int| 0 <= j < entries.len() && #[trigger] entries[j].0 == k;
    if j != i {
        if j < i {
            assert(entries[j].0 != entries[i].0);
        } else {
            assert(entries[i].0 != entries[j].0);
        }
    }
}

/// Appending an entry for a new key adds it to the map.
proof fn lemma_entry_push<C>(entries: Seq<([u8; 32], C)>, key: [u8; 32], conn: C)
    requires
        distinct_keys(entries),
        !has_entry(entries, key),
    ensures
        distinct_keys(entries.push((key, conn))),
        entry_map(entries.push((key, conn))) == entry_map(entries).insert(key, conn),
{
    let s = entries.push((key, conn));
    assert forall|i: int, j: int| 0 <= i < j < s.len() implies s[i].0 != s[j].0 by {
        if j == entries.len() {
            assert(entries[i].0 != key);
        } else {
            assert(entries[i].0 != entries[j].0);
        }
    }
    assert forall|k: [u8; 32]| #[trigger]
        entry_map(s).contains_key(k) == entry_map(entries).insert(key, conn).contains_key(k) by {
        if has_entry(entries, k) {
            let i = choose|i: int| 0 <= i < entries.len() && #[trigger] entries[i].0 == k;
            assert(s[i].0 == k);
        }
        if has_entry(s, k) && k != key {
            let i = choose|i: int| 0 <= i < s.len() && #[trigger] s[i].0 == k;
            assert(entries[i].0 == k);
        }
        if k == key {
            assert(s[entries.len() as int].0 == k);
        }
    }
    assert forall|k: [u8; 32]| #[trigger] entry_map(s).contains_key(k) implies entry_map(s)[k]
        == entry_map(entries).insert(key, conn)[k] by {
        if k == key {
            lemma_entry_at(s, entries.len() as int);
        } else {
            let i = choose|i: int| 0 <= i < s.len() && #[trigger] s[i].0 == k;
            lemma_entry_at(s, i);
            lemma_entry_at(entries, i);
        }
    }
    assert(entry_map(s) =~= entry_map(entries).insert(key, conn));
}

/// Removing the entry at `i` removes its key from the map.
proof fn lemma_entry_remove<C>(entries: Seq<([u8; 32], C)>, i: int)
    requires
        distinct_keys(entries),
        0 <= i < entries.len(),
    ensures
        distinct_keys(entries.remove(i)),
        entry_map(entries.remove(i)) == entry_map(entries).remove(entries[i].0),
{
    let s = entries.remove(i);
    let key = entries[i].0;
    assert forall|a: int| 0 <= a < s.len() implies #[trigger] s[a] == entries[if a < i {
        a
    } else {
        a + 1
    }] by {}
    assert forall|a: int, b: int| 0 <= a < b < s.len() implies s[a].0 != s[b].0 by {
        let a2 = if a < i {
            a
        } else {
            a + 1
        };
        let b2 = if b < i {
            b
        } else {
            b + 1
        };
        assert(s[a] == entries[a2]);
        assert(s[b] == entries[b2]);
        assert(entries[a2].0 != entries[b2].0);
    }
    assert forall|k: [u8; 32]| #[trigger]
        entry_map(s).contains_key(k) == entry_map(entries).remove(key).contains_key(k) by {
        if has_entry(s, k) {
            let a = choose|a: int| 0 <= a < s.len() && #[trigger] s[a].0 == k;
            let a2 = if a < i {
                a
            } else {
                a + 1
            };
            assert(s[a] == entries[a2]);
            assert(entries[a2].0 == k);
            if a2 < i {
                assert(entries[a2].0 != entries[i].0);
            } else {
                assert(entries[i].0 != entries[a2].0);
            }
        }
        if has_entry(entries, k) && k != key {
            let b = choose|b: int| 0 <= b < entries.len() && #[trigger] entries[b].0 == k;
            assert(b != i);
            let a = if b < i {
                b
            } else {
                b - 1
            };
            assert(s[a] == entries[b]);
            assert(has_entry(s, k));
        }
    }
    assert forall|k: [u8; 32]| #[trigger] entry_map(s).contains_key(k) implies entry_map(s)[k]
        == entry_map(entries).remove(key)[k] by {
        let a = choose|a: int| 0 <= a < s.len() && #[trigger] s[a].0 == k;
        let a2 = if a < i {
            a
        } else {
            a + 1
        };
        assert(s[a] == entries[a2]);
        lemma_entry_at(s, a);
        lemma_entry_at(entries, a2);
    }
    assert(entry_map(s) =~= entry_map(entries).remove(key));
}

/// With distinct keys there are as many peers in the map as entries.
proof fn lemma_entry_count<C>(entries: Seq<([u8; 32], C)>)
    requires
        distinct_keys(entries),
    ensures
        entry_map(entries).dom().len() == entries.len(),
        entry_map(entries).dom().finite(),
{
    let keys = entries.map_values(|e: ([u8; 32], C)| e.0);
    assert(keys.no_duplicates()) by {
        assert forall|i: int, j: int|
            0 <= i < keys.len() && 0 <= j < keys.len() && i != j implies keys[i] != keys[j] by {
            if i < j {
                assert(entries[i].0 != entries[j].0);
            } else {
                assert(entries[j].0 != entries[i].0);
            }
        }
    }
    keys.unique_seq_to_set();
    assert forall|k: [u8; 32]| #[trigger] entry_map(entries).dom().contains(k) == keys.to_set().contains(k) by {
        if has_entry(entries, k) {
            let i = choose|i: int| 0 <= i < entries.len() && #[trigger] entries[i].0 == k;
            assert(keys[i] == k);
        }
        if keys.to_set().contains(k) {
            let i = choose|i: int| 0 <= i < keys.len() && keys[i] == k;
            assert(entries[i].0 == k);
        }
    }
    assert(entry_map(entries).dom() =~= keys.to_set());
}

/// Keeps at most one open connection per peer key, and the transport preference that
/// new links are opened with. Opening a link to a peer that already has one replaces it.
pub struct TransportManager<C> {
    preference: TransportPreference,
    active_connections: Vec<([u8; 32], C)>,
}

impl<C> TransportManager<C> {
    /// The open connection of each peer key.
    pub closed spec fn connections(&self) -> Map<[u8; 32], C> {
        entry_map(self.active_connections@)
    }

    /// The preference the manager was made with.
    pub closed spec fn transport_preference(&self) -> TransportPreference {
        self.preference
    }

    /// No peer key has two entries.
    pub closed spec fn wf(&self) -> bool {
        distinct_keys(self.active_connections@)
    }

    /// A manager with no connection.
    pub fn new(preference: TransportPreference) -> (r: Self)
        ensures
            r.wf(),
            r.connections() == Map::<[u8; 32], C>::empty(),
            r.transport_preference() == preference,
    {
        let r = TransportManager { preference, active_connections: Vec::new() };
        assert(r.connections() =~= Map::<[u8; 32], C>::empty());
        r
    }

    /// The preference new links are opened with.
    pub fn preference(&self) -> (r: TransportPreference)
        ensures
            r == self.transport_preference(),
    {
        self.preference
    }

    /// Number of peers with an open connection.
    pub fn connection_count(&self) -> (r: usize)
        requires
            self.wf(),
        ensures
            self.connections().dom().finite(),
            r == self.connections().dom().len(),
    {
        proof {
            lemma_entry_count(self.active_connections@);
        }
        self.active_connections.len()
    }

    fn position_of(&self, peer: &[u8; 32]) -> (r: Option<usize>)
        requires
            self.wf(),
        ensures
            match r {
                Some(i) => i < self.active_connections@.len() && self.active_connections@[i as int].0
                    == *peer,
                None => !has_entry(self.active_connections@, *peer),
            },
    {
        let mut i: usize = 0;
        while i < self.active_connections.len()
            invariant
                i <= self.active_connections@.len(),
                forall|j: int| 0 <= j < i ==> self.active_connections@[j].0 != *peer,
            decreases self.active_connections@.len() - i,
        {
            if keys_equal(&self.active_connections[i].0, peer) {
                return Some(i);
            }
            i = i + 1;
        }
        None
    }

    /// Whether `peer` has an open connection.
    pub fn has_connection(&self, peer: &[u8; 32]) -> (r: bool)
        requires
            self.wf(),
        ensures
            r == self.connections().contains_key(*peer),
    {
        self.position_of(peer).is_some()
    }

    /// Keeps `conn` as the connection of `peer`, replacing the one it had.
    pub fn insert_connection(&mut self, peer: [u8; 32], conn: C)
        requires
            old(self).wf(),
        ensures
            final(self).wf(),
            final(self).connections() == old(self).connections().insert(peer, conn),
            final(self).transport_preference() == old(self).transport_preference(),
    {
        let ghost before = self.active_connections@;
        match self.position_of(&peer) {
            Some(i) => {
                proof {
                    lemma_entry_remove(before, i as int);
                }
                let _replaced = self.active_connections.remove(i);
                proof {
                    assert(!has_entry(self.active_connections@, peer)) by {
                        if has_entry(self.active_connections@, peer) {
                            assert(entry_map(self.active_connections@).contains_key(peer));
                        }
                    }
                    lemma_entry_push(self.active_connections@, peer, conn);
                    assert(entry_map(before).remove(peer).insert(peer, conn) =~= entry_map(
                        before,
                    ).insert(peer, conn));
                }
                self.active_connections.push((peer, conn));
            },
            None => {
                proof {
                    lemma_entry_push(before, peer, conn);
                }
                self.active_connections.push((peer, conn));
            },
        }
    }

    /// Takes the connection of `peer` out of the table, if it has one.
    pub fn take_connection(&mut self, peer: &[u8; 32]) -> (r: Option<C>)
        requires
            old(self).wf(),
        ensures
            final(self).wf(),
            final(self).connections() == old(self).connections().remove(*peer),
            r == (if old(self).connections().contains_key(*peer) {
                Some(old(self).connections()[*peer])
            } else {
                None::<C>
            }),
            final(self).transport_preference() == old(self).transport_preference(),
    {
        let ghost before = self.active_connections@;
        match self.position_of(peer) {
            Some(i) => {
                proof {
                    lemma_entry_remove(before, i as int);
                    lemma_entry_at(before, i as int);
                }
                let (_key, conn) = self.active_connections.remove(i);
                Some(conn)
            },
            None => {
                assert(entry_map(before).remove(*peer) =~= entry_map(before));
                None
            },
        }
    }

    /// The peer keys with an open connection, each once.
    pub fn connected_peers(&self) -> (r: Vec<[u8; 32]>)
        requires
            self.wf(),
        ensures
            r@.no_duplicates(),
            forall|k: [u8; 32]| r@.contains(k) <==> self.connections().contains_key(k),
    {
        let mut keys: Vec<[u8; 32]> = Vec::new();
        let mut i: usize = 0;
        while i < self.active_connections.len()
            invariant
                i <= self.active_connections@.len(),
                distinct_keys(self.active_connections@),
                keys@.len() == i,
                forall|j: int| 0 <= j < i ==> #[trigger] keys@[j] == self.active_connections@[j].0,
            decreases self.active_connections@.len() - i,
        {
            keys.push(self.active_connections[i].0);
            i = i + 1;
        }
        proof {
            assert forall|a: int, b: int|
                0 <= a < keys@.len() && 0 <= b < keys@.len() && a != b implies keys@[a] != keys@[b] by {
                if a < b {
                    assert(self.active_connections@[a].0 != self.active_connections@[b].0);
                } else {
                    assert(self.active_connections@[b].0 != self.active_connections@[a].0);
                }
            }
            assert forall|k: [u8; 32]| keys@.contains(k) <==> self.connections().contains_key(k) by {
                if keys@.contains(k) {
                    let j = choose|j: int| 0 <= j < keys@.len() && keys@[j] == k;
                    assert(self.active_connections@[j].0 == k);
                }
                if has_entry(self.active_connections@, k) {
                    let j = choose|j: int|
                        0 <= j < self.active_connections@.len() && #[trigger] self.active_connections@[j].0
                            == k;
                    assert(keys@[j] == k);
                }
            }
        }
        keys
    }

    /// Empties the table and hands back every peer key with its connection.
    pub fn drain_connections(&mut self) -> (r: Vec<([u8; 32], C)>)
        requires
            old(self).wf(),
        ensures
            final(self).wf(),
            final(self).connections() == Map::<[u8; 32], C>::empty(),
            distinct_keys(r@),
            entry_map(r@) == old(self).connections(),
            final(self).transport_preference() == old(self).transport_preference(),
    {
        let mut drained: Vec<([u8; 32], C)> = Vec::new();
        std::mem::swap(&mut drained, &mut self.active_connections);
        assert(self.connections() =~= Map::<[u8; 32], C>::empty());
        drained
    }
}

/// A well-formed table holds finitely many peers, as many as its entries.
pub proof fn lemma_connections_finite<C>(m: TransportManager<C>)
    requires
        m.wf(),
    ensures
        m.connections().dom().finite(),
{
    lemma_entry_count(m.active_connections@);
}

/// A peer has at most one connection. When a link to `peer` is opened on a table
/// (`insert_connection` gives `after`), the peer's connection is the new one, every other
/// peer keeps its own, and the count grows by one exactly when the peer had no link.
pub proof fn lemma_one_connection_per_peer<C>(
    before: TransportManager<C>,
    after: TransportManager<C>,
    peer: [u8; 32],
    conn: C,
)
    requires
        before.wf(),
        after.connections() == before.connections().insert(peer, conn),
    ensures
        after.connections().dom().finite(),
        after.connections().dom().len() == if before.connections().contains_key(peer) {
            before.connections().dom().len()
        } else {
            before.connections().dom().len() + 1
        },
        after.connections()[peer] == conn,
        forall|k: [u8; 32]|
            k != peer ==> (after.connections().contains_key(k) == before.connections().contains_key(k))
                && after.connections()[k] == before.connections()[k],
{
    lemma_connections_finite(before);
}

} // verus!

//! The mesh topology as reported by peers: each origin's direct neighbours and
//! when that report was last refreshed (seconds since the Unix epoch).

use vstd::prelude::*;

use crate::bytes::keys_equal;
use crate::clock::now_unix_sec;
use crate::message::types::TopologyUpdate;

verus! {

/// One origin's report: its neighbours and when it was refreshed.
pub ghost struct NodeView {
    pub node: [u8; 32],
    pub neighbors: Seq<[u8; 32]>,
    pub last_updated_sec: u64,
}

struct GraphEntry {
    node: [u8; 32],
    neighbors: Vec<[u8; 32]>,
    last_updated_sec: u64,
}

impl GraphEntry {
    spec fn view(&self) -> NodeView {
        NodeView { node: self.node, neighbors: self.neighbors@, last_updated_sec: self.last_updated_sec }
    }
}

/// Seconds from `then` to `now`, zero when `then` is later.
pub open spec fn secs_since(now: u64, then: u64) -> u64 {
    if now >= then {
        (now - then) as u64
    } else {
        0
    }
}

/// Whether a report refreshed at `updated` is still fresh at `now`.
pub open spec fn edge_fresh(updated: u64, now: u64, timeout_secs: u64) -> bool {
    secs_since(now, updated) <= timeout_secs
}

/// The reports of `g` still fresh at `now`, in order.
pub open spec fn fresh_reports(g: Seq<NodeView>, now: u64, timeout_secs: u64) -> Seq<NodeView> {
    g.filter(|n: NodeView| edge_fresh(n.last_updated_sec, now, timeout_secs))
}

/// Whether some report in `g` comes from `node`.
pub open spec fn has_node(g: Seq<NodeView>, node: [u8; 32]) -> bool {
    exists|i: int| 0 <= i < g.len() && #[trigger] g[i].node == node
}

/// How recording `update` at `now` changes the reports `before` into `after`: the
/// origin's report is replaced in place, or appended when the origin is new.
pub open spec fn update_recorded(
    before: Seq<NodeView>,
    after: Seq<NodeView>,
    update: TopologyUpdate,
    now: u64,
) -> bool {
    let report = NodeView {
        node: update.origin_pubkey,
        neighbors: update.directly_connected_peers@,
        last_updated_sec: now,
    };
    &&& forall|i: int|
        0 <= i < before.len() && #[trigger] before[i].node == update.origin_pubkey ==> after
            == before.update(i, report)
    &&& !has_node(before, update.origin_pubkey) ==> after == before.push(report)
}

/// Directed adjacency reported by the peers: one entry per origin.
pub struct MeshGraph {
    entries: Vec<GraphEntry>,
}

fn copy_keys(keys: &Vec<[u8; 32]>) -> (r: Vec<[u8; 32]>)
    ensures
        r@ == keys@,
{
    let mut out: Vec<[u8; 32]> = Vec::new();
    let mut i: usize = 0;
    while i < keys.len()
        invariant
            i <= keys@.len(),
            out@ == keys@.take(i as int),
        decreases keys@.len() - i,
    {
        out.push(keys[i]);
        assert(keys@.take(i + 1) =~= keys@.take(i as int).push(keys@[i as int]));
        i = i + 1;
    }
    assert(keys@.take(keys@.len() as int) =~= keys@);
    out
}

impl View for MeshGraph {
    type V = Seq<NodeView>;

    closed spec fn view(&self) -> Seq<NodeView> {
        self.entries@.map_values(|e: GraphEntry| e.view())
    }
}

impl MeshGraph {
    /// No origin is reported twice.
    pub open spec fn wf(&self) -> bool {
        forall|i: int, j: int|
            0 <= i < j < self@.len() ==> #[trigger] self@[i].node != #[trigger] self@[j].node
    }

    /// An empty graph.
    pub fn new() -> (r: Self)
        ensures
            r.wf(),
            r@ == Seq::<NodeView>::empty(),
    {
        let r = MeshGraph { entries: Vec::new() };
        assert(r@ =~= Seq::<NodeView>::empty());
        r
    }

    fn find(&self, node: &[u8; 32]) -> (r: Option<usize>)
        ensures
            match r {
                Some(i) => i < self@.len() && self@[i as int].node == *node,
                None => !has_node(self@, *node),
            },
    {
        let mut i: usize = 0;
        while i < self.entries.len()
            invariant
                i <= self.entries@.len(),
                forall|j: int| 0 <= j < i ==> self@[j].node != *node,
            decreases self.entries@.len() - i,
        {
            if keys_equal(&self.entries[i].node, node) {
                return Some(i);
            }
            i = i + 1;
        }
        None
    }

    /// Records `update` as refreshed at `now`: the origin's neighbour list is replaced
    /// by the announced one, or a new entry is appended for an unknown origin.
    pub fn apply_update_at(&mut self, update: &TopologyUpdate, now: u64)
        requires
            old(self).wf(),
        ensures
            final(self).wf(),
            update_recorded(old(self)@, final(self)@, *update, now),
    {
        let entry = GraphEntry {
            node: update.origin_pubkey,
            neighbors: copy_keys(&update.directly_connected_peers),
            last_updated_sec: now,
        };
        match self.find(&update.origin_pubkey) {
            Some(i) => {
                self.entries.set(i, entry);
                assert(self@ =~= old(self)@.update(i as int, entry.view()));
                assert forall|a: int, b: int|
                    0 <= a < b < self@.len() implies #[trigger] self@[a].node
                    != #[trigger] self@[b].node by {
                    assert(old(self)@[a].node != old(self)@[b].node);
                }
            },
            None => {
                self.entries.push(entry);
                assert(self@ =~= old(self)@.push(entry.view()));
                assert forall|a: int, b: int|
                    0 <= a < b < self@.len() implies #[trigger] self@[a].node
                    != #[trigger] self@[b].node by {
                    if b < old(self)@.len() {
                        assert(old(self)@[a].node != old(self)@[b].node);
                    } else {
                        assert(old(self)@[a].node != update.origin_pubkey);
                    }
                }
            },
        }
    }

    /// Records `update` as refreshed now; see `apply_update_at`.
    pub fn apply_update(&mut self, update: &TopologyUpdate)
        requires
            old(self).wf(),
        ensures
            final(self).wf(),
            exists|now: u64| #[trigger] update_recorded(old(self)@, final(self)@, *update, now),
    {
        let now = now_unix_sec();
        self.apply_update_at(update, now);
    }

    /// The neighbours `node` reported, if it reported any.
    pub fn get_neighbors(&self, node: &[u8; 32]) -> (r: Option<&Vec<[u8; 32]>>)
        requires
            self.wf(),
        ensures
            match r {
                Some(v) => exists|i: int|
                    0 <= i < self@.len() && #[trigger] self@[i].node == *node && v@
                        == self@[i].neighbors,
                None => !has_node(self@, *node),
            },
    {
        match self.find(node) {
            Some(i) => {
                assert(self@[i as int].node == *node);
                Some(&self.entries[i].neighbors)
            },
            None => None,
        }
    }

    /// Number of origins with a report.
    pub fn node_count(&self) -> (r: usize)
        ensures
            r == self@.len(),
    {
        self.entries.len()
    }

    /// Drops the reports not refreshed within `timeout_secs` seconds of `now`; the rest
    /// stay in order. Returns how many were dropped.
    pub fn prune_stale_edges_at(&mut self, timeout_secs: u64, now: u64) -> (r: usize)
        requires
            old(self).wf(),
        ensures
            final(self).wf(),
            final(self)@ == fresh_reports(old(self)@, now, timeout_secs),
            r == old(self)@.len() - final(self)@.len(),
    {
        let ghost keep = |n: NodeView| edge_fresh(n.last_updated_sec, now, timeout_secs);
        let ghost initial = self@;
        let mut old_entries: Vec<GraphEntry> = Vec::new();
        std::mem::swap(&mut old_entries, &mut self.entries);
        let ghost old_seq = old_entries@;
        let mut removed: usize = 0;
        let n = old_entries.len();
        for e in it: old_entries.into_iter()
            invariant
                it.seq() == old_seq,
                old_seq.len() == n,
                initial == old_seq.map_values(|e: GraphEntry| e.view()),
                keep == (|n: NodeView| edge_fresh(n.last_updated_sec, now, timeout_secs)),
                self@ == initial.take(it.index() as int).filter(keep),
                removed + self@.len() == it.index(),
                it.index() <= old_seq.len(),
        {
            let ghost k = it.index();
            assert(k < n);
            proof {
                initial.take(k as int).lemma_filter_push(initial[k as int], keep);
                assert(initial.take(k + 1) =~= initial.take(k as int).push(initial[k as int]));
            }
            if now.saturating_sub(e.last_updated_sec) <= timeout_secs {
                let ghost before = self@;
                self.entries.push(e);
                assert(self@ =~= before.push(initial[k as int]));
            } else {
                removed = removed + 1;
            }
        }
        proof {
            assert(initial.take(initial.len() as int) =~= initial);
            lemma_filter_keeps_distinct(initial, keep);
        }
        removed
    }

    /// Drops the reports not refreshed within `timeout_secs` seconds of the current time.
    pub fn prune_stale_edges(&mut self, timeout_secs: u64) -> (r: usize)
        requires
            old(self).wf(),
        ensures
            final(self).wf(),
            exists|now: u64| final(self)@ == #[trigger] fresh_reports(old(self)@, now, timeout_secs),
            r == old(self)@.len() - final(self)@.len(),
    {
        let now = now_unix_sec();
        self.prune_stale_edges_at(timeout_secs, now)
    }

    /// Moves `node`'s refresh time `secs` seconds into the past (not before the epoch);
    /// no change when `node` has no report.
    pub fn backdate_edge(&mut self, node: &[u8; 32], secs: u64)
        requires
            old(self).wf(),
        ensures
            final(self).wf(),
            forall|i: int|
                0 <= i < old(self)@.len() && #[trigger] old(self)@[i].node == *node
                    ==> final(self)@ == old(self)@.update(
                    i,
                    NodeView {
                        last_updated_sec: (if old(self)@[i].last_updated_sec >= secs {
                            old(self)@[i].last_updated_sec - secs
                        } else {
                            0
                        }) as u64,
                        ..old(self)@[i]
                    },
                ),
            !has_node(old(self)@, *node) ==> final(self)@ == old(self)@,
    {
        if let Some(i) = self.find(node) {
            let mut entry = self.entries.remove(i);
            entry.last_updated_sec = entry.last_updated_sec.saturating_sub(secs);
            self.entries.insert(i, entry);
            assert(self@ =~= old(self)@.update(i as int, entry.view()));
            assert forall|a: int, b: int|
                0 <= a < b < self@.len() implies #[trigger] self@[a].node
                != #[trigger] self@[b].node by {
                assert(old(self)@[a].node != old(self)@[b].node);
            }
        }
    }
}

proof fn lemma_filter_keeps_distinct(g: Seq<NodeView>, keep: spec_fn(NodeView) -> bool)
    requires
        forall|i: int, j: int| 0 <= i < j < g.len() ==> #[trigger] g[i].node != #[trigger] g[j].node,
    ensures
        forall|i: int, j: int|
            0 <= i < j < g.filter(keep).len() ==> #[trigger] g.filter(keep)[i].node
                != #[trigger] g.filter(keep)[j].node,
    decreases g.len(),
{
    reveal_with_fuel(Seq::filter, 1);
    if g.len() > 0 {
        let rest = g.drop_last();
        lemma_filter_keeps_distinct(rest, keep);
        let fr = rest.filter(keep);
        if keep(g.last()) {
            assert forall|i: int| 0 <= i < fr.len() implies #[trigger] fr[i].node != g.last().node by {
                rest.lemma_filter_contains_rev(keep, fr[i]);
                assert(fr.contains(fr[i]));
                let k = choose|k: int| 0 <= k < rest.len() && rest[k] == fr[i];
                assert(g[k] == rest[k]);
                assert(g[g.len() - 1] == g.last());
            }
        }
    }
}

/// Reading a report back after it was recorded gives what was written. After recording
/// `update` at `now`, the graph holds one report from its origin, with exactly the
/// update's neighbours and `now` as refresh time; every other origin's report is as it
/// was, and no origin appeared or vanished besides the update's.
pub proof fn lemma_update_then_read(
    before: Seq<NodeView>,
    after: Seq<NodeView>,
    update: TopologyUpdate,
    now: u64,
)
    requires
        forall|i: int, j: int|
            0 <= i < j < before.len() ==> #[trigger] before[i].node != #[trigger] before[j].node,
        update_recorded(before, after, update, now),
    ensures
        exists|i: int|
            0 <= i < after.len() && #[trigger] after[i].node == update.origin_pubkey
                && after[i].neighbors == update.directly_connected_peers@ && after[i].last_updated_sec
                == now,
        forall|i: int, j: int|
            0 <= i < after.len() && 0 <= j < after.len() && after[i].node == update.origin_pubkey
                && after[j].node == update.origin_pubkey ==> i == j,
        forall|i: int|
            0 <= i < after.len() && #[trigger] after[i].node != update.origin_pubkey ==> exists|
                j: int,
            | 0 <= j < before.len() && #[trigger] before[j] == after[i],
        forall|node: [u8; 32]|
            node != update.origin_pubkey ==> (has_node(after, node) <==> has_node(before, node)),
{
    let origin = update.origin_pubkey;
    if has_node(before, origin) {
        let k = choose|k: int| 0 <= k < before.len() && #[trigger] before[k].node == origin;
        assert(after == before.update(k, after[k]));
        assert(after[k].node == origin);
        assert forall|i: int, j: int|
            0 <= i < after.len() && 0 <= j < after.len() && after[i].node == origin
                && after[j].node == origin implies i == j by {
            if i != k {
                assert(after[i] == before[i]);
                if i < k {
                    assert(before[i].node != before[k].node);
                } else {
                    assert(before[k].node != before[i].node);
                }
            }
            if j != k {
                assert(after[j] == before[j]);
                if j < k {
                    assert(before[j].node != before[k].node);
                } else {
                    assert(before[k].node != before[j].node);
                }
            }
        }
        assert forall|i: int| 0 <= i < after.len() && #[trigger] after[i].node != origin implies exists|
            j: int,
        | 0 <= j < before.len() && #[trigger] before[j] == after[i] by {
            assert(before[i] == after[i]);
        }
        assert forall|node: [u8; 32]| node != origin implies (has_node(after, node) <==> has_node(
            before,
            node,
        )) by {
            if has_node(after, node) {
                let i = choose|i: int| 0 <= i < after.len() && #[trigger] after[i].node == node;
                assert(before[i].node == node);
            }
            if has_node(before, node) {
                let i = choose|i: int| 0 <= i < before.len() && #[trigger] before[i].node == node;
                assert(after[i].node == node);
            }
        }
    } else {
        let n = before.len() as int;
        assert(after[n].node == origin);
        assert forall|i: int, j: int|
            0 <= i < after.len() && 0 <= j < after.len() && after[i].node == origin
                && after[j].node == origin implies i == j by {
            if i < n {
                assert(before[i].node == origin);
            }
            if j < n {
                assert(before[j].node == origin);
            }
        }
        assert forall|i: int| 0 <= i < after.len() && #[trigger] after[i].node != origin implies exists|
            j: int,
        | 0 <= j < before.len() && #[trigger] before[j] == after[i] by {
            assert(before[i] == after[i]);
        }
        assert forall|node: [u8; 32]| node != origin implies (has_node(after, node) <==> has_node(
            before,
            node,
        )) by {
            if has_node(after, node) {
                let i = choose|i: int| 0 <= i < after.len() && #[trigger] after[i].node == node;
                assert(before[i].node == node);
            }
            if has_node(before, node) {
                let i = choose|i: int| 0 <= i < before.len() && #[trigger] before[i].node == node;
                assert(after[i].node == node);
            }
        }
    }
}

} // verus!

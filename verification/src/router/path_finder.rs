//! Ranking of next hops by their shortest known route to a relay.

use vstd::prelude::*;

use crate::bytes::keys_equal;
use crate::topology::graph::{MeshGraph, NodeView};
use crate::topology::hop_counter::HopCounter;

verus! {

broadcast use vstd::seq_lib::group_seq_properties, vstd::set::group_set_axioms, vstd::seq_lib::seq_to_set_is_finite;

/// The nodes one reported hop away from some node of `s`.
pub open spec fn successors(g: Seq<NodeView>, s: Set<[u8; 32]>) -> Set<[u8; 32]> {
    Set::new(
        |w: [u8; 32]|
            exists|i: int, j: int|
                0 <= i < g.len() && s.contains(g[i].node) && 0 <= j < g[i].neighbors.len()
                    && #[trigger] g[i].neighbors[j] == w,
    )
}

/// The nodes reachable from `start` in at most `k` reported hops.
pub open spec fn within_hops(g: Seq<NodeView>, start: [u8; 32], k: nat) -> Set<[u8; 32]>
    decreases k,
{
    if k == 0 {
        set![start]
    } else {
        let prev = within_hops(g, start, (k - 1) as nat);
        prev.union(successors(g, prev))
    }
}

/// The nodes first reached from `start` after exactly `k` hops.
pub open spec fn layer(g: Seq<NodeView>, start: [u8; 32], k: nat) -> Set<[u8; 32]> {
    if k == 0 {
        within_hops(g, start, 0)
    } else {
        within_hops(g, start, k).difference(within_hops(g, start, (k - 1) as nat))
    }
}

/// Whether `c` is the length of some route from `start` to a relay: `k` hops to a
/// node `v` whose own distance to a relay is known, plus that distance.
pub open spec fn route_cost(g: Seq<NodeView>, h: Map<[u8; 32], u8>, start: [u8; 32], c: int) -> bool {
    exists|k: nat, v: [u8; 32]|
        #[trigger] within_hops(g, start, k).contains(v) && h.contains_key(v) && c == k + h[v]
}

/// Whether `c` is the shortest route from `start` to a relay.
pub open spec fn shortest_route(g: Seq<NodeView>, h: Map<[u8; 32], u8>, start: [u8; 32], c: int) -> bool {
    route_cost(g, h, start, c) && forall|d: int| d < c ==> !#[trigger] route_cost(g, h, start, d)
}

/// The key by which `start` is ranked: its shortest route to a relay, or `usize::MAX`
/// when no route is known (or the length does not fit below `usize::MAX`).
pub open spec fn relay_rank(g: Seq<NodeView>, h: Map<[u8; 32], u8>, start: [u8; 32]) -> usize {
    if exists|c: int| #[trigger] route_cost(g, h, start, c) {
        let c = choose|c: int| #[trigger] shortest_route(g, h, start, c);
        if c < usize::MAX {
            c as usize
        } else {
            usize::MAX
        }
    } else {
        usize::MAX
    }
}

/// All neighbour entries of all reports, in order.
pub open spec fn all_targets(g: Seq<NodeView>) -> Seq<[u8; 32]>
    decreases g.len(),
{
    if g.len() == 0 {
        Seq::empty()
    } else {
        all_targets(g.drop_last()) + g.last().neighbors
    }
}

/// Every node a search from `start` can reach.
pub open spec fn universe(g: Seq<NodeView>, start: [u8; 32]) -> Set<[u8; 32]> {
    all_targets(g).push(start).to_set()
}

proof fn lemma_all_targets_contains(g: Seq<NodeView>, i: int, j: int)
    requires
        0 <= i < g.len(),
        0 <= j < g[i].neighbors.len(),
    ensures
        all_targets(g).contains(g[i].neighbors[j]),
    decreases g.len(),
{
    if i == g.len() - 1 {
        let prefix = all_targets(g.drop_last());
        assert(all_targets(g)[prefix.len() + j] == g[i].neighbors[j]);
    } else {
        lemma_all_targets_contains(g.drop_last(), i, j);
        let prefix = all_targets(g.drop_last());
        let k = choose|k: int| 0 <= k < prefix.len() && prefix[k] == g[i].neighbors[j];
        assert(all_targets(g)[k] == prefix[k]);
    }
}

proof fn lemma_within_in_universe(g: Seq<NodeView>, start: [u8; 32], k: nat)
    ensures
        within_hops(g, start, k).subset_of(universe(g, start)),
    decreases k,
{
    let u = all_targets(g).push(start);
    assert(u[u.len() - 1] == start);
    if k > 0 {
        lemma_within_in_universe(g, start, (k - 1) as nat);
        let prev = within_hops(g, start, (k - 1) as nat);
        assert forall|w: [u8; 32]| successors(g, prev).contains(w) implies universe(g, start).contains(w) by {
            let (i, j) = choose|i: int, j: int|
                0 <= i < g.len() && prev.contains(g[i].node) && 0 <= j < g[i].neighbors.len()
                    && #[trigger] g[i].neighbors[j] == w;
            lemma_all_targets_contains(g, i, j);
            let t = choose|t: int| 0 <= t < all_targets(g).len() && all_targets(g)[t] == w;
            assert(u[t] == w);
        }
    }
}

proof fn lemma_within_monotone(g: Seq<NodeView>, start: [u8; 32], a: nat, b: nat)
    requires
        a <= b,
    ensures
        within_hops(g, start, a).subset_of(within_hops(g, start, b)),
    decreases b,
{
    if a < b {
        lemma_within_monotone(g, start, a, (b - 1) as nat);
    }
}

proof fn lemma_successors_union(g: Seq<NodeView>, a: Set<[u8; 32]>, b: Set<[u8; 32]>)
    ensures
        successors(g, a.union(b)) == successors(g, a).union(successors(g, b)),
{
    assert(successors(g, a.union(b)) =~= successors(g, a).union(successors(g, b)));
}

/// One more hop adds exactly the successors of the newest layer.
proof fn lemma_next_layer(g: Seq<NodeView>, start: [u8; 32], d: nat)
    ensures
        within_hops(g, start, d + 1) == within_hops(g, start, d).union(
            successors(g, layer(g, start, d)),
        ),
{
    let wd = within_hops(g, start, d);
    if d > 0 {
        let wp = within_hops(g, start, (d - 1) as nat);
        let l = layer(g, start, d);
        assert(wd =~= wp.union(l));
        lemma_successors_union(g, wp, l);
        assert(within_hops(g, start, d + 1) =~= wd.union(successors(g, l)));
    }
}

/// Once a hop adds nothing, no later hop does.
proof fn lemma_within_stable(g: Seq<NodeView>, start: [u8; 32], d: nat, k: nat)
    requires
        within_hops(g, start, d + 1) == within_hops(g, start, d),
        d <= k,
    ensures
        within_hops(g, start, k) == within_hops(g, start, d),
    decreases k,
{
    if k > d {
        lemma_within_stable(g, start, d, (k - 1) as nat);
        assert(within_hops(g, start, k) == within_hops(g, start, (k - 1) as nat).union(
            successors(g, within_hops(g, start, (k - 1) as nat)),
        ));
    }
}

proof fn lemma_successors_add_node(g: Seq<NodeView>, s: Set<[u8; 32]>, v: [u8; 32], i: int)
    requires
        forall|a: int, b: int| 0 <= a < b < g.len() ==> #[trigger] g[a].node != #[trigger] g[b].node,
        0 <= i < g.len(),
        g[i].node == v,
    ensures
        successors(g, s.insert(v)) == successors(g, s).union(g[i].neighbors.to_set()),
{
    assert forall|w: [u8; 32]| successors(g, s.insert(v)).contains(w) implies successors(g, s).union(
        g[i].neighbors.to_set(),
    ).contains(w) by {
        let (a, b) = choose|a: int, b: int|
            0 <= a < g.len() && s.insert(v).contains(g[a].node) && 0 <= b < g[a].neighbors.len()
                && #[trigger] g[a].neighbors[b] == w;
        if g[a].node == v {
            assert(a == i);
            assert(g[i].neighbors.contains(w));
        }
    }
    assert forall|w: [u8; 32]| successors(g, s).union(g[i].neighbors.to_set()).contains(
        w,
    ) implies successors(g, s.insert(v)).contains(w) by {
        if g[i].neighbors.to_set().contains(w) {
            let b = choose|b: int| 0 <= b < g[i].neighbors.len() && g[i].neighbors[b] == w;
            assert(s.insert(v).contains(g[i].node));
            assert(g[i].neighbors[b] == w);
        } else {
            let (a, b) = choose|a: int, b: int|
                0 <= a < g.len() && s.contains(g[a].node) && 0 <= b < g[a].neighbors.len()
                    && #[trigger] g[a].neighbors[b] == w;
            assert(s.insert(v).contains(g[a].node));
        }
    }
    assert(successors(g, s.insert(v)) =~= successors(g, s).union(g[i].neighbors.to_set()));
}

proof fn lemma_successors_add_leaf(g: Seq<NodeView>, s: Set<[u8; 32]>, v: [u8; 32])
    requires
        forall|i: int| 0 <= i < g.len() ==> #[trigger] g[i].node != v,
    ensures
        successors(g, s.insert(v)) == successors(g, s),
{
    assert forall|w: [u8; 32]| successors(g, s.insert(v)).contains(w) implies successors(g, s).contains(w) by {
        let (a, b) = choose|a: int, b: int|
            0 <= a < g.len() && s.insert(v).contains(g[a].node) && 0 <= b < g[a].neighbors.len()
                && #[trigger] g[a].neighbors[b] == w;
        assert(g[a].node != v);
    }
    assert(successors(g, s.insert(v)) =~= successors(g, s));
}

/// Whether a best-so-far cost is known and at most `x`.
spec fn bounded_by(best: Option<u128>, x: int) -> bool {
    match best {
        Some(c) => c <= x,
        None => false,
    }
}

proof fn lemma_visited_bound(visited: Seq<[u8; 32]>, g: Seq<NodeView>, start: [u8; 32])
    requires
        visited.no_duplicates(),
        visited.to_set().subset_of(universe(g, start)),
    ensures
        visited.len() <= all_targets(g).len() + 1,
{
    visited.unique_seq_to_set();
    let u = all_targets(g).push(start);
    u.lemma_cardinality_of_set();
    vstd::set_lib::lemma_len_subset(visited.to_set(), u.to_set());
}

fn contains_key(keys: &Vec<[u8; 32]>, key: &[u8; 32]) -> (r: bool)
    ensures
        r == keys@.contains(*key),
{
    let mut i: usize = 0;
    while i < keys.len()
        invariant
            i <= keys@.len(),
            forall|j: int| 0 <= j < i ==> keys@[j] != *key,
        decreases keys@.len() - i,
    {
        if keys_equal(&keys[i], key) {
            return true;
        }
        i = i + 1;
    }
    false
}

/// Length of the shortest route from `start` to a relay: a breadth-first search over
/// the reported topology, adding at each node reached the node's known distance.
fn shortest_relay_route(graph: &MeshGraph, hops: &HopCounter, start: [u8; 32]) -> (r: Option<u128>)
    requires
        graph.wf(),
        hops.wf(),
    ensures
        r is None <==> !exists|c: int| #[trigger] route_cost(graph@, hops@, start, c),
        r matches Some(c) ==> shortest_route(graph@, hops@, start, c as int),
{
    let ghost g = graph@;
    let ghost h = hops@;
    let ghost ulen = all_targets(g).len() + 1;
    let mut visited: Vec<[u8; 32]> = Vec::new();
    visited.push(start);
    let mut frontier: Vec<[u8; 32]> = Vec::new();
    frontier.push(start);
    let mut depth: usize = 0;
    let mut best: Option<u128> = None;
    proof {
        assert(visited@.to_set() =~= within_hops(g, start, 0));
        assert(frontier@.to_set() =~= layer(g, start, 0));
        lemma_within_in_universe(g, start, 0);
    }
    loop
        invariant
            graph.wf(),
            hops.wf(),
            g == graph@,
            h == hops@,
            ulen == all_targets(g).len() + 1,
            visited@.no_duplicates(),
            visited@.to_set() == within_hops(g, start, depth as nat),
            frontier@.to_set() == layer(g, start, depth as nat),
            depth < visited@.len(),
            forall|k: nat, v: [u8; 32]|
                k < depth && #[trigger] within_hops(g, start, k).contains(v) && h.contains_key(v)
                    ==> bounded_by(best, k + h[v]),
            best matches Some(c) ==> route_cost(g, h, start, c as int),
        decreases ulen - visited@.len(),
    {
        // Costs of the routes through the nodes first reached at this depth.
        let mut fi: usize = 0;
        while fi < frontier.len()
            invariant
                hops.wf(),
                h == hops@,
                g == graph@,
                frontier@.to_set() == layer(g, start, depth as nat),
                fi <= frontier@.len(),
                forall|k: nat, v: [u8; 32]|
                    k < depth && #[trigger] within_hops(g, start, k).contains(v) && h.contains_key(v)
                        ==> bounded_by(best, k + h[v]),
                forall|j: int|
                    0 <= j < fi && h.contains_key(#[trigger] frontier@[j]) ==> bounded_by(best, depth + h[frontier@[j]]),
                best matches Some(c) ==> route_cost(g, h, start, c as int),
            decreases frontier@.len() - fi,
        {
            if let Some(hd) = hops.distance_of(&frontier[fi]) {
                let cand: u128 = depth as u128 + hd as u128;
                proof {
                    let v = frontier@[fi as int];
                    assert(frontier@.to_set().contains(v));
                    assert(within_hops(g, start, depth as nat).contains(v));
                    assert(route_cost(g, h, start, cand as int));
                }
                best = match best {
                    Some(b) => if b <= cand {
                        Some(b)
                    } else {
                        Some(cand)
                    },
                    None => Some(cand),
                };
            }
            fi = fi + 1;
        }
        proof {
            assert forall|v: [u8; 32]|
                #[trigger] within_hops(g, start, depth as nat).contains(v) && h.contains_key(v)
                    implies bounded_by(best, depth + h[v]) by {
                if depth > 0 && within_hops(g, start, (depth - 1) as nat).contains(v) {
                } else {
                    assert(layer(g, start, depth as nat).contains(v));
                    assert(frontier@.to_set().contains(v));
                    let j = choose|j: int| 0 <= j < frontier@.len() && frontier@[j] == v;
                }
            }
        }
        // The nodes first reached at the next depth.
        let ghost wd = within_hops(g, start, depth as nat);
        let ghost vlen0 = visited@.len();
        proof {
            lemma_within_in_universe(g, start, depth as nat);
            assert(frontier@.take(0).to_set() =~= Set::<[u8; 32]>::empty());
            assert(successors(g, Set::<[u8; 32]>::empty()) =~= Set::<[u8; 32]>::empty());
            assert(visited@.to_set() =~= wd.union(successors(g, frontier@.take(0).to_set())));
        }
        let mut next: Vec<[u8; 32]> = Vec::new();
        let mut fi: usize = 0;
        while fi < frontier.len()
            invariant
                graph.wf(),
                g == graph@,
                fi <= frontier@.len(),
                wd == within_hops(g, start, depth as nat),
                visited@.no_duplicates(),
                visited@.to_set() == wd.union(successors(g, frontier@.take(fi as int).to_set())),
                next@.to_set() == visited@.to_set().difference(wd),
                visited@.len() == vlen0 + next@.len(),
                visited@.to_set().subset_of(universe(g, start)),
                frontier@.to_set() == layer(g, start, depth as nat),
            decreases frontier@.len() - fi,
        {
            let v = frontier[fi];
            let ghost prefix = frontier@.take(fi as int).to_set();
            proof {
                assert(frontier@.take(fi + 1).to_set() =~= prefix.insert(v)) by {
                    assert(frontier@.take(fi + 1) =~= frontier@.take(fi as int).push(v));
                }
            }
            match graph.get_neighbors(&v) {
                Some(nbrs) => {
                    let ghost i = choose|i: int| 0 <= i < g.len() && #[trigger] g[i].node == v && nbrs@ == g[i].neighbors;
                    proof {
                        lemma_successors_add_node(g, prefix, v, i);
                    }
                    let mut ni: usize = 0;
                    while ni < nbrs.len()
                        invariant
                            ni <= nbrs@.len(),
                            0 <= i < g.len(),
                            g[i].node == v,
                            nbrs@ == g[i].neighbors,
                            visited@.no_duplicates(),
                            visited@.to_set() == wd.union(successors(g, prefix)).union(
                                nbrs@.take(ni as int).to_set(),
                            ),
                            next@.to_set() == visited@.to_set().difference(wd),
                            visited@.len() == vlen0 + next@.len(),
                            visited@.to_set().subset_of(universe(g, start)),
                        decreases nbrs@.len() - ni,
                    {
                        let w = nbrs[ni];
                        proof {
                            assert(nbrs@.take(ni + 1).to_set() =~= nbrs@.take(ni as int).to_set().insert(w)) by {
                                assert(nbrs@.take(ni + 1) =~= nbrs@.take(ni as int).push(w));
                            }
                            lemma_all_targets_contains(g, i, ni as int);
                            let t = choose|t: int| 0 <= t < all_targets(g).len() && all_targets(g)[t] == w;
                            assert(all_targets(g).push(start)[t] == w);
                        }
                        if !contains_key(&visited, &w) {
                            let ghost before = visited@;
                            let ghost next_before = next@;
                            proof {
                                assert(!before.to_set().contains(w));
                                assert(!wd.contains(w));
                            }
                            visited.push(w);
                            next.push(w);
                            proof {
                                assert(visited@.to_set() =~= before.to_set().insert(w));
                                assert(next@.to_set() =~= next_before.to_set().insert(w));
                                assert forall|a: int, b: int| 0 <= a < b < visited@.len() implies visited@[a] != visited@[b] by {
                                    if b == visited@.len() - 1 {
                                        assert(before.contains(before[a]));
                                    }
                                }
                            }
                        }
                        ni = ni + 1;
                    }
                    proof {
                        assert(nbrs@.take(nbrs@.len() as int) =~= nbrs@);
                    }
                },
                None => {
                    proof {
                        lemma_successors_add_leaf(g, prefix, v);
                    }
                },
            }
            fi = fi + 1;
        }
        proof {
            assert(frontier@.take(frontier@.len() as int) =~= frontier@);
            lemma_next_layer(g, start, depth as nat);
            visited@.unique_seq_to_set();
            lemma_visited_bound(visited@, g, start);
            assert(visited@.to_set() == within_hops(g, start, (depth + 1) as nat));
        }
        if next.len() == 0 {
            proof {
                assert(next@.to_set() =~= Set::<[u8; 32]>::empty());
                assert(visited@.to_set() =~= wd);
                assert(within_hops(g, start, (depth + 1) as nat) == within_hops(g, start, depth as nat));
                assert forall|c: int| #[trigger] route_cost(g, h, start, c) implies bounded_by(best, c) by {
                    let (k, v) = choose|k: nat, v: [u8; 32]|
                        #[trigger] within_hops(g, start, k).contains(v) && h.contains_key(v) && c == k + h[v];
                    if k > depth {
                        lemma_within_stable(g, start, depth as nat, k);
                        assert(within_hops(g, start, depth as nat).contains(v));
                    }
                }
            }
            return best;
        }
        proof {
            assert(next@.to_set().len() > 0) by {
                assert(next@.to_set().contains(next@[0]));
            }
            assert(frontier@.to_set() =~= frontier@.to_set());
        }
        let visited_count = visited.len();
        assert(depth < vlen0 && vlen0 < visited_count);
        frontier = next;
        depth = depth + 1;
        proof {
            assert(frontier@.to_set() =~= layer(g, start, depth as nat));
        }
    }
}

proof fn lemma_shortest_unique(g: Seq<NodeView>, h: Map<[u8; 32], u8>, start: [u8; 32], a: int, b: int)
    requires
        shortest_route(g, h, start, a),
        shortest_route(g, h, start, b),
    ensures
        a == b,
{
    if a < b {
        assert(!route_cost(g, h, start, a));
    } else if b < a {
        assert(!route_cost(g, h, start, b));
    }
}

/// `perm` lists every index of `keys` once, ordered by key and, among equal keys,
/// by index: the order a stable sort by key produces.
pub open spec fn stable_order(perm: Seq<int>, keys: Seq<usize>) -> bool {
    &&& perm.len() == keys.len()
    &&& perm.no_duplicates()
    &&& forall|j: int| 0 <= j < perm.len() ==> 0 <= #[trigger] perm[j] < keys.len()
    &&& forall|a: int, b: int|
        0 <= a < b < perm.len() ==> keys[#[trigger] perm[a]] < keys[#[trigger] perm[b]] || (
        keys[perm[a]] == keys[perm[b]] && perm[a] < perm[b])
}

/// `ranked` is `items` stably sorted by `keys` (one key per item).
pub open spec fn stably_sorted(ranked: Seq<[u8; 32]>, items: Seq<[u8; 32]>, keys: Seq<usize>) -> bool {
    exists|perm: Seq<int>|
        #[trigger] stable_order(perm, keys) && ranked.len() == items.len() && forall|j: int|
            0 <= j < ranked.len() ==> ranked[j] == items[perm[j]]
}

/// The ranking key of each active connection.
pub open spec fn rank_keys(g: Seq<NodeView>, h: Map<[u8; 32], u8>, active: Seq<[u8; 32]>) -> Seq<usize> {
    active.map_values(|p: [u8; 32]| relay_rank(g, h, p))
}

fn rank_of(graph: &MeshGraph, hops: &HopCounter, start: [u8; 32]) -> (r: usize)
    requires
        graph.wf(),
        hops.wf(),
    ensures
        r == relay_rank(graph@, hops@, start),
{
    match shortest_relay_route(graph, hops, start) {
        Some(c) => {
            proof {
                let chosen = choose|d: int| #[trigger] shortest_route(graph@, hops@, start, d);
                lemma_shortest_unique(graph@, hops@, start, c as int, chosen);
            }
            if c < usize::MAX as u128 {
                c as usize
            } else {
                usize::MAX
            }
        },
        None => usize::MAX,
    }
}

/// Indices `0..keys.len()` in the stable order of their keys (insertion sort).
fn stable_sort_indices(keys: &Vec<usize>) -> (r: Vec<usize>)
    ensures
        stable_order(r@.map_values(|x: usize| x as int), keys@),
{
    let mut order: Vec<usize> = Vec::new();
    let mut i: usize = 0;
    while i < keys.len()
        invariant
            i <= keys@.len(),
            order@.len() == i,
            order@.no_duplicates(),
            forall|j: int| 0 <= j < order@.len() ==> #[trigger] order@[j] < i,
            forall|a: int, b: int|
                0 <= a < b < order@.len() ==> keys@[#[trigger] order@[a] as int]
                    < keys@[#[trigger] order@[b] as int] || (keys@[order@[a] as int]
                    == keys@[order@[b] as int] && order@[a] < order@[b]),
        decreases keys@.len() - i,
    {
        let k = keys[i];
        let mut p: usize = 0;
        while p < order.len() && keys[order[p]] <= k
            invariant
                p <= order@.len(),
                order@.len() == i,
                i < keys@.len(),
                k == keys@[i as int],
                forall|j: int| 0 <= j < order@.len() ==> #[trigger] order@[j] < i,
                forall|a: int| 0 <= a < p ==> keys@[#[trigger] order@[a] as int] <= k,
            decreases order@.len() - p,
        {
            p = p + 1;
        }
        let ghost before = order@;
        proof {
            assert forall|a: int| p <= a < before.len() implies keys@[#[trigger] before[a] as int] > k by {
                if p < before.len() {
                    assert(keys@[before[p as int] as int] > k);
                    if a > p {
                        assert(keys@[before[p as int] as int] <= keys@[before[a] as int]);
                    }
                }
            }
        }
        order.insert(p, i);
        proof {
            assert forall|j: int| 0 <= j < order@.len() implies #[trigger] order@[j] < i + 1 by {
                if j < p {
                    assert(order@[j] == before[j]);
                } else if j > p {
                    assert(order@[j] == before[j - 1]);
                }
            }
            assert forall|a: int, b: int| 0 <= a < b < order@.len() implies order@[a] != order@[b] by {
                if a < p && b < p {
                    assert(order@[a] == before[a] && order@[b] == before[b]);
                } else if a < p && b == p {
                    assert(order@[a] == before[a]);
                } else if a < p && b > p {
                    assert(order@[a] == before[a] && order@[b] == before[b - 1]);
                } else if a == p {
                    assert(order@[b] == before[b - 1]);
                } else {
                    assert(order@[a] == before[a - 1] && order@[b] == before[b - 1]);
                }
            }
            assert forall|a: int, b: int|
                0 <= a < b < order@.len() implies keys@[#[trigger] order@[a] as int]
                < keys@[#[trigger] order@[b] as int] || (keys@[order@[a] as int]
                == keys@[order@[b] as int] && order@[a] < order@[b]) by {
                if a < p && b < p {
                    assert(order@[a] == before[a] && order@[b] == before[b]);
                } else if a < p && b == p {
                    assert(order@[a] == before[a]);
                } else if a < p && b > p {
                    assert(order@[a] == before[a] && order@[b] == before[b - 1]);
                } else if a == p {
                    assert(order@[b] == before[b - 1]);
                } else {
                    assert(order@[a] == before[a - 1] && order@[b] == before[b - 1]);
                }
            }
        }
        i = i + 1;
    }
    let ghost perm = order@.map_values(|x: usize| x as int);
    proof {
        assert forall|a: int, b: int| 0 <= a < b < perm.len() implies perm[a] != perm[b] by {
            assert(order@[a] != order@[b]);
        }
        assert forall|a: int, b: int|
            0 <= a < b < perm.len() implies keys@[#[trigger] perm[a]] < keys@[#[trigger] perm[b]] || (
            keys@[perm[a]] == keys@[perm[b]] && perm[a] < perm[b]) by {
            assert(perm[a] == order@[a] as int && perm[b] == order@[b] as int);
        }
    }
    order
}

/// Ranks active connections by their shortest known route to a relay.
pub struct PathFinder {}

impl Default for PathFinder {
    fn default() -> (r: Self) {
        Self::new()
    }
}

impl PathFinder {
    pub fn new() -> (r: Self) {
        PathFinder {  }
    }

    /// Evaluates the graph. Returns the active connections ordered by their shortest
    /// route to a known relay (a breadth-first search from each over the reported
    /// topology, plus the known distance of the node reached), shortest first; ties
    /// keep their given order and connections with no known route come last.
    pub fn rank_next_hops(
        &self,
        graph: &MeshGraph,
        hop_counter: &HopCounter,
        active_connections: &[[u8; 32]],
    ) -> (r: Vec<[u8; 32]>)
        requires
            graph.wf(),
            hop_counter.wf(),
        ensures
            stably_sorted(r@, active_connections@, rank_keys(graph@, hop_counter@, active_connections@)),
    {
        let ghost key_spec = rank_keys(graph@, hop_counter@, active_connections@);
        let mut keys: Vec<usize> = Vec::new();
        let mut i: usize = 0;
        while i < active_connections.len()
            invariant
                graph.wf(),
                hop_counter.wf(),
                i <= active_connections@.len(),
                key_spec == rank_keys(graph@, hop_counter@, active_connections@),
                keys@ == key_spec.take(i as int),
            decreases active_connections@.len() - i,
        {
            let key = rank_of(graph, hop_counter, active_connections[i]);
            keys.push(key);
            assert(keys@ =~= key_spec.take(i + 1));
            i = i + 1;
        }
        assert(keys@ =~= key_spec);
        let order = stable_sort_indices(&keys);
        let ghost perm = order@.map_values(|x: usize| x as int);
        let mut ranked: Vec<[u8; 32]> = Vec::new();
        let mut j: usize = 0;
        while j < order.len()
            invariant
                j <= order@.len(),
                order@.len() == active_connections@.len(),
                stable_order(perm, key_spec),
                perm == order@.map_values(|x: usize| x as int),
                ranked@.len() == j,
                forall|t: int| 0 <= t < j ==> ranked@[t] == active_connections@[perm[t]],
            decreases order@.len() - j,
        {
            assert(perm[j as int] == order@[j as int] as int);
            ranked.push(active_connections[order[j]]);
            j = j + 1;
        }
        ranked
    }
}

} // verus!

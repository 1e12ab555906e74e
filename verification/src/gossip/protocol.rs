//! Gossip state and anti-entropy sync.

use vstd::prelude::*;

use crate::message::types::{SyncRequest, SyncResponse, TransactionEnvelope};

verus! {

/// The 4-byte prefix by which a sync request names a message.
pub open spec fn id_prefix(env: TransactionEnvelope) -> Seq<u8> {
    env.message_id@.take(4)
}

/// Whether the request names the envelope's prefix.
pub open spec fn request_knows(ids: Seq<[u8; 4]>, env: TransactionEnvelope) -> bool {
    exists|j: int| 0 <= j < ids.len() && #[trigger] ids[j]@ == id_prefix(env)
}

/// The prefixes a node with envelopes `envs` announces, in order.
pub open spec fn announced_prefixes(envs: Seq<TransactionEnvelope>) -> Seq<Seq<u8>> {
    envs.map_values(|e: TransactionEnvelope| id_prefix(e))
}

/// The envelopes of `envs` whose prefix the request does not name, in order.
pub open spec fn missing_for(envs: Seq<TransactionEnvelope>, ids: Seq<[u8; 4]>) -> Seq<
    TransactionEnvelope,
> {
    envs.filter(|e: TransactionEnvelope| !request_knows(ids, e))
}

/// Whether some envelope of `envs` has the same prefix as `env`.
pub open spec fn holds_prefix(envs: Seq<TransactionEnvelope>, env: TransactionEnvelope) -> bool {
    exists|k: int| 0 <= k < envs.len() && #[trigger] id_prefix(envs[k]) == id_prefix(env)
}

/// The messages a node holds and gossips.
pub struct GossipState {
    pub active_envelopes: Vec<TransactionEnvelope>,
}

impl GossipState {
    /// An empty state.
    pub fn new() -> (r: Self)
        ensures
            r.active_envelopes@ == Seq::<TransactionEnvelope>::empty(),
    {
        GossipState { active_envelopes: Vec::new() }
    }

    /// Add an envelope to the active buffer
    pub fn add_envelope(&mut self, env: TransactionEnvelope)
        ensures
            final(self).active_envelopes@ == old(self).active_envelopes@.push(env),
    {
        self.active_envelopes.push(env);
    }

    /// Generates a SyncRequest containing the 4-byte prefixes of known message IDs,
    /// one per envelope, in buffer order.
    pub fn generate_sync_request(&self) -> (r: SyncRequest)
        ensures
            r.known_message_ids@.len() == self.active_envelopes@.len(),
            forall|i: int|
                0 <= i < r.known_message_ids@.len() ==> #[trigger] r.known_message_ids@[i]@
                    == announced_prefixes(self.active_envelopes@)[i],
    {
        let mut known_message_ids: Vec<[u8; 4]> = Vec::new();
        let mut i: usize = 0;
        while i < self.active_envelopes.len()
            invariant
                i <= self.active_envelopes@.len(),
                known_message_ids@.len() == i,
                forall|k: int|
                    0 <= k < i ==> #[trigger] known_message_ids@[k]@ == id_prefix(
                        self.active_envelopes@[k],
                    ),
            decreases self.active_envelopes@.len() - i,
        {
            let id = &self.active_envelopes[i].message_id;
            let prefix: [u8; 4] = [id[0], id[1], id[2], id[3]];
            assert(prefix@ =~= id@.take(4));
            known_message_ids.push(prefix);
            i = i + 1;
        }
        SyncRequest { known_message_ids }
    }

    /// Processes an incoming SyncRequest, returning a SyncResponse with any local envelopes
    /// that the requestor does not have: those whose prefix the request does not name,
    /// in buffer order.
    pub fn handle_sync_request(&self, req: &SyncRequest) -> (r: SyncResponse)
        ensures
            r.missing_envelopes@ == missing_for(self.active_envelopes@, req.known_message_ids@),
    {
        let ghost ids = req.known_message_ids@;
        let ghost pred = |e: TransactionEnvelope| !request_knows(ids, e);
        let mut missing_envelopes: Vec<TransactionEnvelope> = Vec::new();
        let mut i: usize = 0;
        while i < self.active_envelopes.len()
            invariant
                i <= self.active_envelopes@.len(),
                ids == req.known_message_ids@,
                pred == (|e: TransactionEnvelope| !request_knows(ids, e)),
                missing_envelopes@ == self.active_envelopes@.take(i as int).filter(pred),
            decreases self.active_envelopes@.len() - i,
        {
            let env = &self.active_envelopes[i];
            proof {
                self.active_envelopes@.take(i as int).lemma_filter_push(
                    self.active_envelopes@[i as int],
                    pred,
                );
                assert(self.active_envelopes@.take(i + 1) =~= self.active_envelopes@.take(
                    i as int,
                ).push(self.active_envelopes@[i as int]));
            }
            if !knows_prefix(req, &env.message_id) {
                missing_envelopes.push(env.copy());
            }
            i = i + 1;
        }
        assert(self.active_envelopes@.take(self.active_envelopes@.len() as int)
            =~= self.active_envelopes@);
        SyncResponse { missing_envelopes }
    }

    /// Process an incoming SyncResponse by adding the missing envelopes to our state,
    /// after the ones already held.
    pub fn handle_sync_response(&mut self, resp: SyncResponse)
        ensures
            final(self).active_envelopes@ == old(self).active_envelopes@
                + resp.missing_envelopes@,
    {
        let mut missing = resp.missing_envelopes;
        self.active_envelopes.append(&mut missing);
    }
}

fn knows_prefix(req: &SyncRequest, id: &[u8; 32]) -> (r: bool)
    ensures
        r == exists|j: int|
            0 <= j < req.known_message_ids@.len() && #[trigger] req.known_message_ids@[j]@
                == id@.take(4),
{
    let mut j: usize = 0;
    while j < req.known_message_ids.len()
        invariant
            j <= req.known_message_ids@.len(),
            forall|k: int| 0 <= k < j ==> #[trigger] req.known_message_ids@[k]@ != id@.take(4),
        decreases req.known_message_ids@.len() - j,
    {
        let p = &req.known_message_ids[j];
        if p[0] == id[0] && p[1] == id[1] && p[2] == id[2] && p[3] == id[3] {
            assert(p@ =~= id@.take(4));
            return true;
        }
        assert(p@[0] != id@[0] || p@[1] != id@[1] || p@[2] != id@[2] || p@[3] != id@[3]);
        assert(p@ != id@.take(4)) by {
            if p@ == id@.take(4) {
                assert(p@[0] == id@.take(4)[0]);
                assert(p@[1] == id@.take(4)[1]);
                assert(p@[2] == id@.take(4)[2]);
                assert(p@[3] == id@.take(4)[3]);
            }
        }
        j = j + 1;
    }
    false
}

/// One anti-entropy round: node B announces the prefixes of what it holds, node A
/// answers with the envelopes whose prefix B did not announce, and B appends them.
/// Afterwards every envelope A held is matched, by prefix, by one B holds; and A sent
/// nothing whose prefix B had announced.
pub proof fn lemma_sync_round_covers(
    a: Seq<TransactionEnvelope>,
    b: Seq<TransactionEnvelope>,
    ids: Seq<[u8; 4]>,
)
    requires
        ids.len() == b.len(),
        forall|i: int| 0 <= i < ids.len() ==> #[trigger] ids[i]@ == announced_prefixes(b)[i],
    ensures
        forall|i: int| 0 <= i < a.len() ==> holds_prefix(b + missing_for(a, ids), #[trigger] a[i]),
        forall|k: int|
            0 <= k < missing_for(a, ids).len() ==> !request_knows(
                ids,
                #[trigger] missing_for(a, ids)[k],
            ),
{
    let pred = |e: TransactionEnvelope| !request_knows(ids, e);
    let m = missing_for(a, ids);
    let merged = b + m;
    assert forall|i: int| 0 <= i < a.len() implies holds_prefix(merged, #[trigger] a[i]) by {
        if request_knows(ids, a[i]) {
            let j = choose|j: int| 0 <= j < ids.len() && #[trigger] ids[j]@ == id_prefix(a[i]);
            assert(ids[j]@ == announced_prefixes(b)[j]);
            assert(merged[j] == b[j]);
            assert(id_prefix(merged[j]) == id_prefix(a[i]));
        } else {
            a.lemma_filter_contains(pred, i);
            assert(m.contains(a[i]));
            let k = choose|k: int| 0 <= k < m.len() && m[k] == a[i];
            assert(merged[b.len() + k] == m[k]);
            assert(id_prefix(merged[b.len() + k]) == id_prefix(a[i]));
        }
    }
    assert forall|k: int| 0 <= k < m.len() implies !request_knows(ids, #[trigger] m[k]) by {
        a.lemma_filter_pred(pred, k);
    }
}

} // verus!

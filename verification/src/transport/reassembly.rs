//! What the reassembler does with a whole chunked message: the frames fed one by one,
//! and the law that reassembly gives back what was chunked.

use vstd::prelude::*;

use crate::transport::unified::{
    after_chunk, buffer_complete, chunk_valid, empty_buffer, is_chunking, is_kth_chunk,
    write_chunk, BufferView, ChunkFrame, MAX_MESSAGE_SIZE_BYTES,
};

verus! {

/// The buffers after the frames `cs` arrive one by one, frame `i` at time `times[i]`,
/// together with what each arrival returned.
pub open spec fn feed_frames(m: Map<u32, BufferView>, cs: Seq<ChunkFrame>, times: Seq<u64>) -> (Map<
    u32,
    BufferView,
>, Seq<Option<Seq<u8>>>)
    decreases cs.len(),
{
    if cs.len() == 0 {
        (m, Seq::empty())
    } else {
        let prev = feed_frames(m, cs.drop_last(), times.drop_last());
        let step = after_chunk(prev.0, cs.last(), times[cs.len() - 1]);
        (step.0, prev.1.push(step.1))
    }
}

/// Some position before `j` of `order` holds `k`.
pub open spec fn listed_before(order: Seq<int>, j: int, k: int) -> bool {
    exists|i: int| 0 <= i < j && order[i] == k
}

/// `order` lists every index below `n` exactly once.
pub open spec fn is_permutation(order: Seq<int>, n: int) -> bool {
    &&& order.len() == n
    &&& forall|i: int| 0 <= i < n ==> 0 <= #[trigger] order[i] < n
    &&& forall|i: int, j: int| 0 <= i < j < n ==> order[i] != order[j]
    &&& forall|k: int| 0 <= k < n ==> #[trigger] listed_before(order, n, k)
}

/// The frames in the order in which they arrive: `frames[order[0]]` first.
pub open spec fn arrival_order(frames: Seq<ChunkFrame>, order: Seq<int>) -> Seq<ChunkFrame> {
    Seq::new(order.len(), |i: int| frames[order[i]])
}

/// A buffer for `bytes` cut into blocks of `cap` bytes that has received exactly the
/// blocks listed before position `j` of `order`, each with its bytes in place.
spec fn holds_listed_blocks(b: BufferView, bytes: Seq<u8>, cap: int, order: Seq<int>, j: int) -> bool {
    &&& b.total_length == bytes.len()
    &&& b.data.len() == bytes.len()
    &&& b.received.len() == bytes.len()
    &&& forall|x: int|
        0 <= x < bytes.len() ==> (#[trigger] b.received[x] <==> listed_before(order, j, x / cap))
    &&& forall|x: int| 0 <= x < bytes.len() && b.received[x] ==> #[trigger] b.data[x] == bytes[x]
}

/// Position `x` lies in block `k` of size `cap` exactly when `x / cap == k`.
proof fn lemma_block_of(x: int, cap: int, k: int)
    requires
        0 < cap,
        0 <= x,
        0 <= k,
    ensures
        (k * cap <= x < k * cap + cap) <==> x / cap == k,
{
    let q = x / cap;
    let r = x % cap;
    vstd::arithmetic::div_mod::lemma_fundamental_div_mod(x, cap);
    vstd::arithmetic::div_mod::lemma_mod_pos_bound(x, cap);
    if k * cap <= x < k * cap + cap {
        vstd::arithmetic::div_mod::lemma_fundamental_div_mod_converse(x, cap, k, x - k * cap);
    }
    if q == k {
        assert(k * cap <= x < k * cap + cap) by (nonlinear_arith)
            requires
                x == cap * q + r,
                0 <= r < cap,
                q == k,
        ;
    }
}

/// Frame `k` of a chunking is accepted by the reassembler and covers block `k`.
proof fn lemma_kth_frame(frames: Seq<ChunkFrame>, bytes: Seq<u8>, id: u32, cap: int, k: int)
    requires
        0 < bytes.len() <= MAX_MESSAGE_SIZE_BYTES,
        0 < cap,
        is_chunking(frames, bytes, id, cap),
        0 <= k < frames.len(),
    ensures
        chunk_valid(frames[k]),
        frames[k].message_id == id,
        frames[k].total_length == bytes.len(),
        frames[k].offset == k * cap,
        k * cap < bytes.len(),
        frames[k].offset + frames[k].payload@.len() == if k * cap + cap < bytes.len() {
            k * cap + cap
        } else {
            bytes.len() as int
        },
        forall|x: int|
            frames[k].offset <= x < frames[k].offset + frames[k].payload@.len()
                ==> #[trigger] frames[k].payload@[x - frames[k].offset] == bytes[x],
{
    assert(is_kth_chunk(frames[k], bytes, id, cap, k));
    assert(k * cap <= (frames.len() - 1) * cap) by (nonlinear_arith)
        requires
            k <= frames.len() - 1,
            cap > 0,
    ;
    assert(0 <= k * cap) by (nonlinear_arith)
        requires
            0 <= k,
            cap > 0,
    ;
}

/// Every position of `bytes` lies in a block below the number of frames.
proof fn lemma_block_in_range(frames: Seq<ChunkFrame>, bytes: Seq<u8>, id: u32, cap: int, x: int)
    requires
        0 < cap,
        is_chunking(frames, bytes, id, cap),
        0 <= x < bytes.len(),
    ensures
        0 <= x / cap < frames.len(),
{
    let q = x / cap;
    vstd::arithmetic::div_mod::lemma_fundamental_div_mod(x, cap);
    vstd::arithmetic::div_mod::lemma_mod_pos_bound(x, cap);
    vstd::arithmetic::div_mod::lemma_div_pos_is_pos(x, cap);
    assert(q < frames.len()) by (nonlinear_arith)
        requires
            x == cap * q + x % cap,
            0 <= x % cap,
            x < bytes.len(),
            frames.len() * cap >= bytes.len(),
            cap > 0,
    ;
}

proof fn lemma_listed_step(order: Seq<int>, j: int, k: int)
    requires
        0 <= j < order.len(),
    ensures
        listed_before(order, j + 1, k) <==> (listed_before(order, j, k) || order[j] == k),
{
    if listed_before(order, j + 1, k) {
        let i = choose|i: int| 0 <= i < j + 1 && order[i] == k;
        if i < j {
            assert(listed_before(order, j, k));
        }
    }
    if order[j] == k {
        assert(listed_before(order, j + 1, k));
    }
    if listed_before(order, j, k) {
        let i = choose|i: int| 0 <= i < j && order[i] == k;
        assert(order[i] == k);
        assert(listed_before(order, j + 1, k));
    }
}

/// The state after the first `j` arrivals: for a proper prefix, nothing returned and one
/// buffer for the message holding the blocks fed so far; after all of them, the message
/// returned by the last arrival and the buffers as they began.
proof fn lemma_feed_prefix(
    frames: Seq<ChunkFrame>,
    bytes: Seq<u8>,
    id: u32,
    cap: int,
    order: Seq<int>,
    m0: Map<u32, BufferView>,
    times: Seq<u64>,
    j: int,
)
    requires
        0 < bytes.len() <= MAX_MESSAGE_SIZE_BYTES,
        0 < cap,
        is_chunking(frames, bytes, id, cap),
        is_permutation(order, frames.len() as int),
        !m0.contains_key(id),
        times.len() == frames.len(),
        0 <= j <= frames.len(),
    ensures
        ({
            let r = feed_frames(m0, arrival_order(frames, order).take(j), times.take(j));
            &&& r.1.len() == j
            &&& j < frames.len() ==> forall|i: int| 0 <= i < j ==> #[trigger] r.1[i] is None
            &&& j == 0 ==> r.0 == m0
            &&& 0 < j < frames.len() ==> {
                &&& r.0.contains_key(id)
                &&& r.0 == m0.insert(id, r.0[id])
                &&& holds_listed_blocks(r.0[id], bytes, cap, order, j)
            }
            &&& j == frames.len() ==> {
                &&& r.0 == m0
                &&& r.1[j - 1] == Some(bytes)
                &&& forall|i: int| 0 <= i < j - 1 ==> #[trigger] r.1[i] is None
            }
        }),
    decreases j,
{
    let n = frames.len() as int;
    let cs = arrival_order(frames, order);
    assert(n > 0) by (nonlinear_arith)
        requires
            n * cap >= bytes.len(),
            bytes.len() > 0,
            cap > 0,
            n >= 0,
    ;
    if j == 0 {
        assert(cs.take(0) =~= Seq::<ChunkFrame>::empty());
        return;
    }
    let p = j - 1;
    lemma_feed_prefix(frames, bytes, id, cap, order, m0, times, p);
    assert(cs.take(j).drop_last() =~= cs.take(p));
    assert(times.take(j).drop_last() =~= times.take(p));
    let prev = feed_frames(m0, cs.take(p), times.take(p));
    let k = order[p];
    let c = frames[k];
    let now = times[p];
    assert(cs.take(j).last() == c);
    assert(times.take(j)[j - 1] == now);
    let r = feed_frames(m0, cs.take(j), times.take(j));
    let step = after_chunk(prev.0, c, now);
    assert(r == (step.0, prev.1.push(step.1)));
    lemma_kth_frame(frames, bytes, id, cap, k);
    let base = if prev.0.contains_key(id) {
        prev.0[id]
    } else {
        empty_buffer(c.total_length as nat, now)
    };
    let nb = write_chunk(base, c, now);
    assert(prev.0.contains_key(id) ==> prev.0[id].total_length == c.total_length);
    assert forall|x: int| 0 <= x < bytes.len() implies (#[trigger] nb.received[x] <==> listed_before(
        order,
        j,
        x / cap,
    )) by {
        lemma_listed_step(order, p, x / cap);
        lemma_block_of(x, cap, k);
    }
    assert forall|x: int| 0 <= x < bytes.len() && nb.received[x] implies #[trigger] nb.data[x]
        == bytes[x] by {
        lemma_block_of(x, cap, k);
        lemma_listed_step(order, p, x / cap);
        if !(c.offset <= x < c.offset + c.payload@.len()) {
            assert(base.received[x]);
        } else {
            assert(c.payload@[x - c.offset] == bytes[x]);
        }
    }
    assert(holds_listed_blocks(nb, bytes, cap, order, j));
    if j < n {
        let k2 = order[j];
        lemma_kth_frame(frames, bytes, id, cap, k2);
        let x = k2 * cap;
        lemma_block_of(x, cap, k2);
        assert(!listed_before(order, j, k2)) by {
            if listed_before(order, j, k2) {
                let i = choose|i: int| 0 <= i < j && order[i] == k2;
                assert(order[i] != order[j]);
            }
        }
        assert(!nb.received[x]);
        assert(!buffer_complete(nb));
        assert(step.0 =~= m0.insert(id, nb));
        assert(step.1 is None);
        assert forall|i: int| 0 <= i < j implies #[trigger] r.1[i] is None by {
            if i < p {
                assert(r.1[i] == prev.1[i]);
            }
        }
    } else {
        assert forall|x: int| 0 <= x < nb.total_length implies #[trigger] nb.received[x] by {
            lemma_block_in_range(frames, bytes, id, cap, x);
            assert(listed_before(order, n, x / cap));
        }
        assert(buffer_complete(nb));
        assert(nb.data =~= bytes);
        assert(step.0 =~= m0);
        assert forall|i: int| 0 <= i < j - 1 implies #[trigger] r.1[i] is None by {
            assert(r.1[i] == prev.1[i]);
        }
    }
}

/// Reassembly undoes chunking. When every frame of a chunked message arrives exactly once,
/// in any order and at any times, at a reassembler that holds no buffer for the message's
/// id, every arrival but the last returns nothing, the last returns the whole message, and
/// the reassembler's buffers end as they began.
pub proof fn lemma_reassembly_roundtrip(
    frames: Seq<ChunkFrame>,
    bytes: Seq<u8>,
    id: u32,
    cap: int,
    order: Seq<int>,
    buffers: Map<u32, BufferView>,
    times: Seq<u64>,
)
    requires
        0 < bytes.len() <= MAX_MESSAGE_SIZE_BYTES,
        0 < cap,
        is_chunking(frames, bytes, id, cap),
        is_permutation(order, frames.len() as int),
        !buffers.contains_key(id),
        times.len() == frames.len(),
    ensures
        ({
            let r = feed_frames(buffers, arrival_order(frames, order), times);
            &&& r.0 == buffers
            &&& r.1.len() == frames.len()
            &&& r.1.last() == Some(bytes)
            &&& forall|i: int| 0 <= i < r.1.len() - 1 ==> #[trigger] r.1[i] is None
        }),
{
    let n = frames.len() as int;
    lemma_feed_prefix(frames, bytes, id, cap, order, buffers, times, n);
    assert(arrival_order(frames, order).take(n) =~= arrival_order(frames, order));
    assert(times.take(n) =~= times);
}

} // verus!

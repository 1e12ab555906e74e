//! Splitting serialized messages into MTU-sized chunk frames, putting them back
//! together on the receiving side, and the transport selection policy.

use vstd::prelude::*;

use std::collections::HashMap;
use vstd::std_specs::iter::IteratorSpec;

use crate::clock::MonotonicClock;
use crate::transport::errors::TransportError;

verus! {

broadcast use vstd::seq_lib::group_seq_properties;

/// Bytes taken by a frame's header: message id, total length, offset (4 each) and payload size (2).
pub const CHUNK_FRAME_HEADER_SIZE: usize = 14;

/// Largest message that is chunked or reassembled.
pub const MAX_MESSAGE_SIZE_BYTES: usize = 1024 * 1024;

/// Largest payload a frame can carry, the range of its 16-bit size field.
pub const MAX_FRAME_PAYLOAD: usize = 65535;

/// One piece of a chunked message.
#[derive(Debug, Clone, PartialEq)]
pub struct ChunkFrame {
    pub message_id: u32,
    pub total_length: u32,
    pub offset: u32,
    pub payload_size: u16,
    pub payload: Vec<u8>,
}

/// How many payload bytes fit in one frame for a given MTU.
pub open spec fn payload_capacity(mtu: usize) -> int {
    if mtu - CHUNK_FRAME_HEADER_SIZE < MAX_FRAME_PAYLOAD {
        mtu - CHUNK_FRAME_HEADER_SIZE
    } else {
        MAX_FRAME_PAYLOAD as int
    }
}

/// Whether a message of this length is chunked at all for this MTU.
pub open spec fn chunkable(len: int, mtu: usize) -> bool {
    0 < len <= MAX_MESSAGE_SIZE_BYTES && mtu > CHUNK_FRAME_HEADER_SIZE
}

/// Frame `k` of `bytes` cut into pieces of `cap` bytes, all tagged `id`.
pub open spec fn is_kth_chunk(f: ChunkFrame, bytes: Seq<u8>, id: u32, cap: int, k: int) -> bool {
    let start = k * cap;
    let end = if start + cap < bytes.len() {
        start + cap
    } else {
        bytes.len() as int
    };
    &&& f.message_id == id
    &&& f.total_length == bytes.len()
    &&& f.offset == start
    &&& f.payload@ == bytes.subrange(start, end)
    &&& f.payload_size == f.payload@.len()
}

/// `frames` are `bytes` cut, in order, into consecutive pieces of `cap` bytes (the
/// last possibly shorter), all tagged `id`.
pub open spec fn is_chunking(frames: Seq<ChunkFrame>, bytes: Seq<u8>, id: u32, cap: int) -> bool {
    &&& frames.len() * cap >= bytes.len()
    &&& (frames.len() - 1) * cap < bytes.len()
    &&& forall|k: int| 0 <= k < frames.len() ==> #[trigger] is_kth_chunk(frames[k], bytes, id, cap, k)
}

/// Splits messages into frames that fit a transport's MTU.
pub struct MessageChunker {
    pub mtu: usize,
}

#[verifier::external_body]
fn random_message_id() -> (r: u32) {
    rand::random::<u32>()
}

impl MessageChunker {
    /// Cuts `message_bytes` into frames tagged `message_id`, each carrying at most
    /// `min(mtu - 14, 65535)` payload bytes. Nothing is produced for an empty message,
    /// an MTU that leaves no room for payload, or a message over the size limit.
    pub fn chunk_with_id(&self, message_bytes: &[u8], message_id: u32) -> (r: Vec<ChunkFrame>)
        ensures
            !chunkable(message_bytes@.len() as int, self.mtu) ==> r@.len() == 0,
            chunkable(message_bytes@.len() as int, self.mtu) ==> is_chunking(
                r@,
                message_bytes@,
                message_id,
                payload_capacity(self.mtu),
            ),
    {
        if message_bytes.len() == 0 {
            return Vec::new();
        }
        if self.mtu <= CHUNK_FRAME_HEADER_SIZE {
            return Vec::new();
        }
        if message_bytes.len() > MAX_MESSAGE_SIZE_BYTES {
            return Vec::new();
        }
        let room = self.mtu - CHUNK_FRAME_HEADER_SIZE;
        let cap = if room < MAX_FRAME_PAYLOAD {
            room
        } else {
            MAX_FRAME_PAYLOAD
        };
        let len = message_bytes.len();
        let total_length = len as u32;
        let mut frames: Vec<ChunkFrame> = Vec::new();
        let mut offset: usize = 0;
        assert(frames@.len() * cap == 0) by (nonlinear_arith)
            requires frames@.len() == 0;
        while offset < len
            invariant
                len == message_bytes@.len(),
                0 < len <= MAX_MESSAGE_SIZE_BYTES,
                0 < cap <= MAX_FRAME_PAYLOAD,
                cap == payload_capacity(self.mtu),
                total_length == len,
                offset <= len,
                frames@.len() * cap < len ==> offset == frames@.len() * cap,
                frames@.len() * cap >= len ==> offset == len,
                frames@.len() > 0 ==> (frames@.len() - 1) * cap < len,
                forall|k: int|
                    0 <= k < frames@.len() ==> #[trigger] is_kth_chunk(
                        frames@[k],
                        message_bytes@,
                        message_id,
                        cap as int,
                        k,
                    ),
            decreases len - offset,
        {
            let end = if offset + cap < len {
                offset + cap
            } else {
                len
            };
            let payload = vstd::slice::slice_to_vec(&message_bytes[offset..end]);
            let ghost k = frames@.len() as int;
            frames.push(
                ChunkFrame {
                    message_id,
                    total_length,
                    offset: offset as u32,
                    payload_size: payload.len() as u16,
                    payload,
                },
            );
            assert(is_kth_chunk(frames@[k], message_bytes@, message_id, cap as int, k));
            proof {
                assert((k + 1) * cap == k * cap + cap) by (nonlinear_arith);
            }
            offset = end;
        }
        frames
    }

    /// Cuts `message_bytes` into frames under a fresh random message id; see `chunk_with_id`.
    pub fn chunk(&self, message_bytes: &[u8]) -> (r: Vec<ChunkFrame>)
        ensures
            !chunkable(message_bytes@.len() as int, self.mtu) ==> r@.len() == 0,
            chunkable(message_bytes@.len() as int, self.mtu) ==> exists|id: u32|
                #[trigger] is_chunking(r@, message_bytes@, id, payload_capacity(self.mtu)),
    {
        let message_id = random_message_id();
        self.chunk_with_id(message_bytes, message_id)
    }
}

/// Every frame of a chunking fits the MTU, header included.
pub proof fn lemma_frames_fit_mtu(frames: Seq<ChunkFrame>, bytes: Seq<u8>, id: u32, mtu: usize, k: int)
    requires
        chunkable(bytes.len() as int, mtu),
        is_chunking(frames, bytes, id, payload_capacity(mtu)),
        0 <= k < frames.len(),
    ensures
        CHUNK_FRAME_HEADER_SIZE + frames[k].payload@.len() <= mtu,
        frames[k].payload@.len() > 0,
{
    let cap = payload_capacity(mtu);
    assert(is_kth_chunk(frames[k], bytes, id, cap, k));
    assert(k * cap < bytes.len()) by {
        assert(k <= frames.len() - 1);
        assert(k * cap <= (frames.len() - 1) * cap) by (nonlinear_arith)
            requires k <= frames.len() - 1, cap > 0;
    }
}

/// How many positions of `s` are set.
pub open spec fn count_true(s: Seq<bool>) -> nat
    decreases s.len(),
{
    if s.len() == 0 {
        0
    } else {
        count_true(s.drop_last()) + if s.last() {
            1nat
        } else {
            0nat
        }
    }
}

proof fn lemma_count_true_bound(s: Seq<bool>)
    ensures
        count_true(s) <= s.len(),
        count_true(s) == s.len() <==> forall|x: int| 0 <= x < s.len() ==> #[trigger] s[x],
    decreases s.len(),
{
    if s.len() > 0 {
        lemma_count_true_bound(s.drop_last());
        if count_true(s) == s.len() {
            assert forall|x: int| 0 <= x < s.len() implies #[trigger] s[x] by {
                if x < s.len() - 1 {
                    assert(s.drop_last()[x] == s[x]);
                }
            }
        }
        if forall|x: int| 0 <= x < s.len() ==> #[trigger] s[x] {
            assert forall|x: int| 0 <= x < s.drop_last().len() implies #[trigger] s.drop_last()[x] by {
                assert(s[x]);
            }
        }
    }
}

proof fn lemma_count_true_set(s: Seq<bool>, i: int)
    requires
        0 <= i < s.len(),
    ensures
        count_true(s.update(i, true)) == count_true(s) + if s[i] {
            0nat
        } else {
            1nat
        },
    decreases s.len(),
{
    if i < s.len() - 1 {
        lemma_count_true_set(s.drop_last(), i);
        assert(s.update(i, true).drop_last() =~= s.drop_last().update(i, true));
    } else {
        assert(s.update(i, true).drop_last() =~= s.drop_last());
    }
}

proof fn lemma_count_true_all_false(n: nat)
    ensures
        count_true(Seq::new(n, |x: int| false)) == 0,
    decreases n,
{
    if n > 0 {
        assert(Seq::new(n, |x: int| false).drop_last() =~= Seq::new((n - 1) as nat, |x: int| false));
        lemma_count_true_all_false((n - 1) as nat);
    }
}

/// What the reassembler knows of one partially received message.
pub ghost struct BufferView {
    pub total_length: nat,
    pub data: Seq<u8>,
    pub received: Seq<bool>,
    pub last_updated: u64,
}

/// Whether every byte of the message has arrived.
pub open spec fn buffer_complete(b: BufferView) -> bool {
    forall|x: int| 0 <= x < b.total_length ==> #[trigger] b.received[x]
}

/// A frame the reassembler accepts: a sane total length, a size field that matches the
/// payload, and a payload that lies inside the message.
pub open spec fn chunk_valid(c: ChunkFrame) -> bool {
    &&& 0 < c.total_length <= MAX_MESSAGE_SIZE_BYTES
    &&& c.payload_size == c.payload@.len()
    &&& c.offset < c.total_length
    &&& c.offset + c.payload@.len() <= c.total_length
}

/// The buffer for a message of `total` bytes before any byte arrived.
pub open spec fn empty_buffer(total: nat, now: u64) -> BufferView {
    BufferView {
        total_length: total,
        data: Seq::new(total, |x: int| 0u8),
        received: Seq::new(total, |x: int| false),
        last_updated: now,
    }
}

/// `b` after the frame's payload is written at its offset, at time `now`.
pub open spec fn write_chunk(b: BufferView, c: ChunkFrame, now: u64) -> BufferView {
    let s = c.offset as int;
    let e = s + c.payload@.len();
    BufferView {
        total_length: b.total_length,
        data: Seq::new(
            b.total_length,
            |x: int|
                if s <= x < e {
                    c.payload@[x - s]
                } else {
                    b.data[x]
                },
        ),
        received: Seq::new(
            b.total_length,
            |x: int|
                if s <= x < e {
                    true
                } else {
                    b.received[x]
                },
        ),
        last_updated: now,
    }
}

/// The buffers after frame `c` arrives at `now`, and the message completed by it, if any.
/// Invalid frames, and frames whose total length disagrees with the buffer already held
/// for their message, change nothing.
pub open spec fn after_chunk(m: Map<u32, BufferView>, c: ChunkFrame, now: u64) -> (Map<
    u32,
    BufferView,
>, Option<Seq<u8>>) {
    let id = c.message_id;
    if !chunk_valid(c) {
        (m, None)
    } else if m.contains_key(id) && m[id].total_length != c.total_length {
        (m, None)
    } else {
        let base = if m.contains_key(id) {
            m[id]
        } else {
            empty_buffer(c.total_length as nat, now)
        };
        let nb = write_chunk(base, c, now);
        if buffer_complete(nb) {
            (m.remove(id), Some(nb.data))
        } else {
            (m.insert(id, nb), None)
        }
    }
}

/// Milliseconds from `then` to `now`, zero when `then` is later.
pub open spec fn elapsed_millis(now: u64, then: u64) -> u64 {
    if now >= then {
        (now - then) as u64
    } else {
        0
    }
}

/// The buffers of `m` updated no more than `timeout_ms` before `now`.
pub open spec fn live_buffers(m: Map<u32, BufferView>, now: u64, timeout_ms: u64) -> Map<u32, BufferView> {
    Map::new(
        |k: u32| m.contains_key(k) && elapsed_millis(now, m[k].last_updated) <= timeout_ms,
        |k: u32| m[k],
    )
}

/// A partially received message.
pub struct PartialMessageBuffer {
    total_length: usize,
    data: Vec<u8>,
    received_map: Vec<bool>,
    received_bytes: usize,
    last_updated: u64,
}

impl PartialMessageBuffer {
    pub closed spec fn view(&self) -> BufferView {
        BufferView {
            total_length: self.total_length as nat,
            data: self.data@,
            received: self.received_map@,
            last_updated: self.last_updated,
        }
    }

    /// Lengths agree and the byte count matches the received positions.
    pub closed spec fn wf(&self) -> bool {
        &&& 0 < self.total_length <= MAX_MESSAGE_SIZE_BYTES
        &&& self.data@.len() == self.total_length
        &&& self.received_map@.len() == self.total_length
        &&& self.received_bytes == count_true(self.received_map@)
    }
}

/// Puts chunked messages back together, one buffer per message id in flight. Its
/// times are milliseconds on the monotonic clock since the reassembler was made.
pub struct MessageReassembler {
    buffers: HashMap<u32, PartialMessageBuffer>,
    clock: MonotonicClock,
}

impl Default for MessageReassembler {
    fn default() -> (r: Self)
        ensures
            r.wf(),
            r.buffers() == Map::<u32, BufferView>::empty(),
    {
        Self::new()
    }
}

impl MessageReassembler {
    /// The buffers of the messages in flight, by message id.
    pub closed spec fn buffers(&self) -> Map<u32, BufferView> {
        self.buffers@.map_values(|b: PartialMessageBuffer| b.view())
    }

    /// Every buffer is well formed and still incomplete.
    pub closed spec fn wf(&self) -> bool {
        forall|k: u32| #[trigger] self.buffers@.contains_key(k) ==> self.buffers@[k].wf()
            && !buffer_complete(self.buffers@[k].view())
    }

    /// No message in flight.
    pub fn new() -> (r: Self)
        ensures
            r.wf(),
            r.buffers() == Map::<u32, BufferView>::empty(),
    {
        let r = MessageReassembler { buffers: HashMap::new(), clock: MonotonicClock::starting_at(0) };
        assert(r.buffers() =~= Map::<u32, BufferView>::empty());
        r
    }

    /// Takes in one frame arriving at `now`; see `after_chunk`. When the frame
    /// completes its message, the message's bytes are returned and its buffer dropped.
    pub fn receive_chunk_at(&mut self, chunk: ChunkFrame, now: u64) -> (r: Option<Vec<u8>>)
        requires
            old(self).wf(),
        ensures
            final(self).wf(),
            final(self).buffers() == after_chunk(old(self).buffers(), chunk, now).0,
            match after_chunk(old(self).buffers(), chunk, now).1 {
                Some(d) => r matches Some(v) && v@ == d,
                None => r is None,
            },
    {
        broadcast use vstd::std_specs::hash::group_hash_axioms;
        let ghost m0 = self.buffers();
        let total_length = chunk.total_length as usize;
        if total_length == 0 || total_length > MAX_MESSAGE_SIZE_BYTES {
            return None;
        }
        if chunk.payload_size as usize != chunk.payload.len() {
            return None;
        }
        let start = chunk.offset as usize;
        let end = match start.checked_add(chunk.payload.len()) {
            Some(e) => e,
            None => return None,
        };
        if start >= total_length || end > total_length {
            return None;
        }
        let id = chunk.message_id;
        let mut buffer = match self.buffers.remove(&id) {
            Some(b) => {
                if b.total_length != total_length {
                    self.buffers.insert(id, b);
                    proof {
                        assert(self.buffers() =~= m0);
                    }
                    return None;
                }
                b
            },
            None => {
                let b = PartialMessageBuffer {
                    total_length,
                    data: vec![0u8; total_length],
                    received_map: vec![false; total_length],
                    received_bytes: 0,
                    last_updated: now,
                };
                proof {
                    lemma_count_true_all_false(total_length as nat);
                    assert(b.data@ =~= empty_buffer(total_length as nat, now).data);
                    assert(b.received_map@ =~= empty_buffer(total_length as nat, now).received);
                }
                b
            },
        };
        let ghost base = buffer.view();
        let ghost m_rest = self.buffers();
        assert(m_rest =~= m0.remove(id));
        let mut j: usize = 0;
        while j < chunk.payload.len()
            invariant
                buffer.total_length == total_length,
                buffer.data@.len() == total_length,
                buffer.received_map@.len() == total_length,
                base.total_length == total_length,
                base.data.len() == total_length,
                base.received.len() == total_length,
                start + chunk.payload@.len() <= total_length,
                total_length <= MAX_MESSAGE_SIZE_BYTES,
                j <= chunk.payload@.len(),
                buffer.received_bytes == count_true(buffer.received_map@),
                buffer.data@ == Seq::new(
                    total_length as nat,
                    |x: int|
                        if start <= x < start + j {
                            chunk.payload@[x - start]
                        } else {
                            base.data[x]
                        },
                ),
                buffer.received_map@ == Seq::new(
                    total_length as nat,
                    |x: int|
                        if start <= x < start + j {
                            true
                        } else {
                            base.received[x]
                        },
                ),
            decreases chunk.payload@.len() - j,
        {
            let pos = start + j;
            let ghost rm = buffer.received_map@;
            proof {
                lemma_count_true_bound(rm);
                lemma_count_true_set(rm, pos as int);
            }
            if !buffer.received_map[pos] {
                buffer.received_map.set(pos, true);
                buffer.received_bytes = buffer.received_bytes + 1;
            } else {
                assert(rm.update(pos as int, true) =~= rm);
            }
            buffer.data.set(pos, chunk.payload[j]);
            j = j + 1;
            assert(buffer.data@ =~= Seq::new(
                total_length as nat,
                |x: int|
                    if start <= x < start + j {
                        chunk.payload@[x - start]
                    } else {
                        base.data[x]
                    },
            ));
            assert(buffer.received_map@ =~= Seq::new(
                total_length as nat,
                |x: int|
                    if start <= x < start + j {
                        true
                    } else {
                        base.received[x]
                    },
            ));
        }
        buffer.last_updated = now;
        proof {
            assert(buffer.view() == write_chunk(base, chunk, now));
            lemma_count_true_bound(buffer.received_map@);
        }
        if buffer.received_bytes == buffer.total_length {
            proof {
                assert(self.buffers() =~= m0.remove(id));
            }
            return Some(buffer.data);
        }
        assert(buffer.wf());
        assert(!buffer_complete(buffer.view())) by {
            if buffer_complete(buffer.view()) {
                assert forall|x: int| 0 <= x < buffer.received_map@.len() implies #[trigger] buffer.received_map@[x] by {
                    assert(buffer.view().received[x]);
                }
                lemma_count_true_bound(buffer.received_map@);
            }
        }
        assert(base == (if m0.contains_key(id) {
            m0[id]
        } else {
            empty_buffer(chunk.total_length as nat, now)
        }));
        let ghost old_map = self.buffers@;
        self.buffers.insert(id, buffer);
        proof {
            assert(self.buffers() =~= m0.insert(id, write_chunk(base, chunk, now)));
            assert forall|k: u32| #[trigger] self.buffers@.contains_key(k) implies self.buffers@[k].wf()
                && !buffer_complete(self.buffers@[k].view()) by {
                if k != id {
                    assert(old_map.contains_key(k));
                    assert(old(self).buffers@.contains_key(k));
                }
            }
        }
        None
    }

    /// Takes in one frame arriving now; see `receive_chunk_at`.
    pub fn receive_chunk(&mut self, chunk: ChunkFrame) -> (r: Option<Vec<u8>>)
        requires
            old(self).wf(),
        ensures
            final(self).wf(),
            exists|now: u64|
                {
                    &&& final(self).buffers() == #[trigger] after_chunk(old(self).buffers(), chunk, now).0
                    &&& match after_chunk(old(self).buffers(), chunk, now).1 {
                        Some(d) => r matches Some(v) && v@ == d,
                        None => r is None,
                    }
                },
    {
        let now = self.now_millis();
        self.receive_chunk_at(chunk, now)
    }

    /// Drops the buffers not updated within `timeout_ms` milliseconds of `now`.
    pub fn cleanup_stale_buffers_at(&mut self, timeout_ms: u64, now: u64)
        requires
            old(self).wf(),
        ensures
            final(self).wf(),
            final(self).buffers() == live_buffers(old(self).buffers(), now, timeout_ms),
    {
        broadcast use vstd::std_specs::hash::group_hash_axioms;
        let ghost m0 = self.buffers@;
        let mut keys: Vec<u32> = Vec::new();
        let key_iter = self.buffers.keys();
        let ghost all_keys = key_iter.remaining().map_values(|r: &u32| *r);
        proof {
            assert(all_keys == key_iter.remaining().unref());
        }
        for k in it: key_iter
            invariant
                it.seq().map_values(|r: &u32| *r) == all_keys,
                keys@ == all_keys.take(it.index() as int),
        {
            keys.push(*k);
            assert(keys@ =~= all_keys.take(it.index() + 1));
        }
        assert(keys@ =~= all_keys);
        let mut i: usize = 0;
        while i < keys.len()
            invariant
                i <= keys@.len(),
                keys@.to_set() == m0.dom(),
                keys@.no_duplicates(),
                self.buffers@ == Map::new(
                    |k: u32|
                        m0.contains_key(k) && (!keys@.take(i as int).contains(k) || elapsed_millis(
                            now,
                            m0[k].last_updated,
                        ) <= timeout_ms),
                    |k: u32| m0[k],
                ),
            decreases keys@.len() - i,
        {
            let k = keys[i];
            let ghost prev = self.buffers@;
            proof {
                assert(keys@.to_set().contains(k));
                assert(!keys@.take(i as int).contains(k)) by {
                    if keys@.take(i as int).contains(k) {
                        let j = choose|j: int| 0 <= j < i && keys@.take(i as int)[j] == k;
                        assert(keys@[j] == keys@[i as int]);
                    }
                }
                assert(keys@.take(i + 1) =~= keys@.take(i as int).push(k));
            }
            let stale = match self.buffers.get(&k) {
                Some(b) => now.saturating_sub(b.last_updated) > timeout_ms,
                None => false,
            };
            proof {
                assert(prev.contains_key(k));
                assert(prev[k] == m0[k]);
            }
            if stale {
                self.buffers.remove(&k);
            }
            i = i + 1;
            assert(self.buffers@ =~= Map::new(
                |x: u32|
                    m0.contains_key(x) && (!keys@.take(i as int).contains(x) || elapsed_millis(
                        now,
                        m0[x].last_updated,
                    ) <= timeout_ms),
                |x: u32| m0[x],
            ));
        }
    }

    /// Drops the buffers not updated within `timeout_ms` milliseconds of the reassembler's current time (`now_millis`).
    pub fn cleanup_stale_buffers(&mut self, timeout_ms: u64)
        requires
            old(self).wf(),
        ensures
            final(self).wf(),
            exists|now: u64| final(self).buffers() == #[trigger] live_buffers(old(self).buffers(), now, timeout_ms),
    {
        let now = self.now_millis();
        self.cleanup_stale_buffers_at(timeout_ms, now);
    }

    /// The current time on this reassembler's clock: milliseconds elapsed on the
    /// monotonic clock since it was made.
    pub fn now_millis(&self) -> (r: u64) {
        self.clock.now_millis()
    }

    /// Number of messages in flight.
    pub fn in_flight_buffer_count(&self) -> (r: usize)
        ensures
            r == self.buffers().dom().len(),
    {
        broadcast use vstd::std_specs::hash::group_hash_axioms;
        assert(self.buffers().dom() =~= self.buffers@.dom());
        self.buffers.len()
    }
}

/// Controls which physical transport the connection manager will attempt.
#[derive(Debug, Clone, Copy, PartialEq, Eq, Structural)]
pub enum TransportPreference {
    /// Automatically pick the best available transport.
    /// Tries WiFi-Direct first; falls back to BLE on failure.
    Auto,
    /// Force BLE even if WiFi-Direct is available.
    BleOnly,
    /// Force WiFi-Direct. Returns an error if no address is provided or connection fails.
    WifiOnly,
}

/// What the connection manager does next when opening or repairing a link.
#[derive(Debug, Clone, Copy, PartialEq, Eq, Structural)]
pub enum ConnectStep {
    /// Dial the peer's WiFi-Direct address.
    TryWifi,
    /// Scan for and connect to the peer over BLE.
    UseBle,
    /// Give up with this error.
    Fail(TransportError),
}

/// The first step of opening a link: WiFi-Direct when an address is known and allowed,
/// BLE when it is preferred or no address is known in automatic mode; a WiFi-only link
/// without an address fails with `NotConnected`.
pub fn first_connect_step(preference: TransportPreference, has_wifi_addr: bool) -> (r: ConnectStep)
    ensures
        r == (match preference {
            TransportPreference::WifiOnly => if has_wifi_addr {
                ConnectStep::TryWifi
            } else {
                ConnectStep::Fail(TransportError::NotConnected)
            },
            TransportPreference::BleOnly => ConnectStep::UseBle,
            TransportPreference::Auto => if has_wifi_addr {
                ConnectStep::TryWifi
            } else {
                ConnectStep::UseBle
            },
        }),
{
    match preference {
        TransportPreference::WifiOnly => if has_wifi_addr {
            ConnectStep::TryWifi
        } else {
            ConnectStep::Fail(TransportError::NotConnected)
        },
        TransportPreference::BleOnly => ConnectStep::UseBle,
        TransportPreference::Auto => if has_wifi_addr {
            ConnectStep::TryWifi
        } else {
            ConnectStep::UseBle
        },
    }
}

/// The step after a WiFi-Direct attempt failed with `err`: automatic mode falls back
/// to BLE whatever the error; under any other preference the attempt fails with it.
pub fn after_wifi_failure(preference: TransportPreference, err: TransportError) -> (r: ConnectStep)
    ensures
        r == (if preference == TransportPreference::Auto {
            ConnectStep::UseBle
        } else {
            ConnectStep::Fail(err)
        }),
{
    match preference {
        TransportPreference::Auto => ConnectStep::UseBle,
        _ => ConnectStep::Fail(err),
    }
}

/// The step after sending over an open link failed with `err`: a broken pipe drops the
/// link and reconnects over BLE; any other error is returned as is.
pub fn after_send_failure(err: TransportError) -> (r: ConnectStep)
    ensures
        r == (if err == TransportError::BrokenPipe {
            ConnectStep::UseBle
        } else {
            ConnectStep::Fail(err)
        }),
{
    match err {
        TransportError::BrokenPipe => ConnectStep::UseBle,
        _ => ConnectStep::Fail(err),
    }
}

} // verus!

//! Wire encoding of chunk frames for the BLE GATT characteristics.

use vstd::prelude::*;

use vstd::bytes::{
    spec_u16_from_le_bytes, spec_u16_to_le_bytes, spec_u32_from_le_bytes, spec_u32_to_le_bytes,
    u16_from_le_bytes, u16_to_le_bytes, u32_from_le_bytes, u32_to_le_bytes,
};

use crate::peer::identity::PeerIdentity;
use crate::transport::connection::{ConnectionState, TransportType};
use crate::transport::errors::TransportError;
use crate::transport::unified::{
    after_chunk, chunkable, is_chunking, payload_capacity, BufferView, ChunkFrame, MessageChunker,
    MessageReassembler, CHUNK_FRAME_HEADER_SIZE,
};

verus! {

/// Primary StellarConduit GATT Service UUID, as a 128-bit value.
pub const SC_SERVICE_UUID: u128 = 0x00de_adbe_efca_feba_be00_0000_0000_0001u128;

/// Write Characteristic — Central peers write inbound chunk frames here.
pub const SC_WRITE_CHAR_UUID: u128 = 0x00de_adbe_efca_feba_be00_0000_0000_0002u128;

/// Notify Characteristic — Peripheral notifies connected Centrals with outbound chunk frames.
pub const SC_NOTIFY_CHAR_UUID: u128 = 0x00de_adbe_efca_feba_be00_0000_0000_0003u128;

/// BLE MTU used for chunking. The BLE 4.2+ spec allows up to 517 bytes per ATT packet,
/// but we use a conservative 244 bytes (common negotiated value).
pub const BLE_ATT_MTU: usize = 244;

/// The bytes of a frame on the wire: id, total length and offset as little-endian
/// `u32`s, the payload size as a little-endian `u16`, then the payload.
pub open spec fn frame_bytes(f: ChunkFrame) -> Seq<u8> {
    spec_u32_to_le_bytes(f.message_id) + spec_u32_to_le_bytes(f.total_length)
        + spec_u32_to_le_bytes(f.offset) + spec_u16_to_le_bytes(f.payload_size) + f.payload@
}

/// Whether `data` is a well-formed frame: a full header and exactly as many payload
/// bytes as the header's size field says.
pub open spec fn frame_decodes(data: Seq<u8>) -> bool {
    data.len() >= CHUNK_FRAME_HEADER_SIZE && data.len() - CHUNK_FRAME_HEADER_SIZE
        == spec_u16_from_le_bytes(data.subrange(12, 14))
}

/// The frame a well-formed `data` holds.
pub open spec fn decoded_frame(f: ChunkFrame, data: Seq<u8>) -> bool {
    &&& f.message_id == spec_u32_from_le_bytes(data.subrange(0, 4))
    &&& f.total_length == spec_u32_from_le_bytes(data.subrange(4, 8))
    &&& f.offset == spec_u32_from_le_bytes(data.subrange(8, 12))
    &&& f.payload_size == spec_u16_from_le_bytes(data.subrange(12, 14))
    &&& f.payload@ == data.skip(CHUNK_FRAME_HEADER_SIZE as int)
}

fn push_all(buf: &mut Vec<u8>, bytes: &[u8])
    ensures
        final(buf)@ == old(buf)@ + bytes@,
{
    let mut i: usize = 0;
    while i < bytes.len()
        invariant
            i <= bytes@.len(),
            buf@ == old(buf)@ + bytes@.take(i as int),
        decreases bytes@.len() - i,
    {
        buf.push(bytes[i]);
        assert(bytes@.take(i + 1) =~= bytes@.take(i as int).push(bytes@[i as int]));
        i = i + 1;
    }
    assert(bytes@.take(bytes@.len() as int) =~= bytes@);
}

/// Encodes a `ChunkFrame` into raw bytes for transmission over a BLE characteristic.
pub fn encode_chunk(frame: &ChunkFrame) -> (r: Vec<u8>)
    ensures
        r@ == frame_bytes(*frame),
{
    let mut buf: Vec<u8> = Vec::new();
    let id = u32_to_le_bytes(frame.message_id);
    push_all(&mut buf, id.as_slice());
    let total = u32_to_le_bytes(frame.total_length);
    push_all(&mut buf, total.as_slice());
    let offset = u32_to_le_bytes(frame.offset);
    push_all(&mut buf, offset.as_slice());
    let size = u16_to_le_bytes(frame.payload_size);
    push_all(&mut buf, size.as_slice());
    push_all(&mut buf, frame.payload.as_slice());
    buf
}

/// Decodes raw bytes from a BLE characteristic into a `ChunkFrame`.
/// Returns `None` if the buffer is shorter than a header or its payload length
/// differs from the header's size field.
pub fn decode_chunk(data: &[u8]) -> (r: Option<ChunkFrame>)
    ensures
        r is Some <==> frame_decodes(data@),
        r matches Some(f) ==> decoded_frame(f, data@),
{
    if data.len() < CHUNK_FRAME_HEADER_SIZE {
        return None;
    }
    let message_id = u32_from_le_bytes(&data[0..4]);
    let total_length = u32_from_le_bytes(&data[4..8]);
    let offset = u32_from_le_bytes(&data[8..12]);
    let payload_size = u16_from_le_bytes(&data[12..14]);
    let payload = vstd::slice::slice_to_vec(&data[14..data.len()]);
    if payload.len() != payload_size as usize {
        return None;
    }
    Some(ChunkFrame { message_id, total_length, offset, payload_size, payload })
}

/// Decoding the bytes of a frame whose size field matches its payload gives the frame back.
pub proof fn lemma_encode_then_decode(f: ChunkFrame)
    requires
        f.payload_size == f.payload@.len(),
    ensures
        frame_decodes(frame_bytes(f)),
        decoded_frame(f, frame_bytes(f)),
{
    vstd::bytes::lemma_auto_spec_u32_to_from_le_bytes();
    vstd::bytes::lemma_auto_spec_u16_to_from_le_bytes();
    let b = frame_bytes(f);
    assert(b.subrange(0, 4) =~= spec_u32_to_le_bytes(f.message_id));
    assert(b.subrange(4, 8) =~= spec_u32_to_le_bytes(f.total_length));
    assert(b.subrange(8, 12) =~= spec_u32_to_le_bytes(f.offset));
    assert(b.subrange(12, 14) =~= spec_u16_to_le_bytes(f.payload_size));
    assert(b.skip(14) =~= f.payload@);
}

/// Encoding a decoded frame gives back exactly the bytes it was decoded from.
pub proof fn lemma_decode_then_encode(f: ChunkFrame, data: Seq<u8>)
    requires
        frame_decodes(data),
        decoded_frame(f, data),
    ensures
        frame_bytes(f) == data,
{
    vstd::bytes::lemma_auto_spec_u32_to_from_le_bytes();
    vstd::bytes::lemma_auto_spec_u16_to_from_le_bytes();
    assert(spec_u32_to_le_bytes(f.message_id) == data.subrange(0, 4));
    assert(spec_u32_to_le_bytes(f.total_length) == data.subrange(4, 8));
    assert(spec_u32_to_le_bytes(f.offset) == data.subrange(8, 12));
    assert(spec_u16_to_le_bytes(f.payload_size) == data.subrange(12, 14));
    assert(frame_bytes(f) =~= data);
}

/// Feeds one received frame, in wire form, arriving at `now`, to `reassembler`: bytes
/// that do not decode give `BrokenPipe` and change nothing; otherwise the decoded frame
/// is taken in (see `after_chunk`) and the message it completes, if any, is returned.
pub fn ingest_frame_bytes_at(reassembler: &mut MessageReassembler, data: &[u8], now: u64) -> (r:
    Result<Option<Vec<u8>>, TransportError>)
    requires
        old(reassembler).wf(),
    ensures
        final(reassembler).wf(),
        !frame_decodes(data@) ==> r == Err::<Option<Vec<u8>>, TransportError>(
            TransportError::BrokenPipe,
        ) && final(reassembler).buffers() == old(reassembler).buffers(),
        frame_decodes(data@) ==> exists|f: ChunkFrame|
            #[trigger] decoded_frame(f, data@) && final(reassembler).buffers() == after_chunk(
                old(reassembler).buffers(),
                f,
                now,
            ).0 && match after_chunk(old(reassembler).buffers(), f, now).1 {
                Some(d) => r matches Ok(Some(v)) && v@ == d,
                None => r matches Ok(None),
            },
{
    let frame = match decode_chunk(data) {
        Some(f) => f,
        None => return Err(TransportError::BrokenPipe),
    };
    let ghost f = frame;
    let completed = reassembler.receive_chunk_at(frame, now);
    assert(decoded_frame(f, data@));
    Ok(completed)
}

/// Feeds one received frame, in wire form, to `reassembler` at its current time (`now_millis`);
/// see `ingest_frame_bytes_at`.
pub fn ingest_frame_bytes(reassembler: &mut MessageReassembler, data: &[u8]) -> (r: Result<
    Option<Vec<u8>>,
    TransportError,
>)
    requires
        old(reassembler).wf(),
    ensures
        final(reassembler).wf(),
        !frame_decodes(data@) ==> r == Err::<Option<Vec<u8>>, TransportError>(
            TransportError::BrokenPipe,
        ) && final(reassembler).buffers() == old(reassembler).buffers(),
        frame_decodes(data@) ==> exists|f: ChunkFrame, now: u64|
            #[trigger] decoded_frame(f, data@) && final(reassembler).buffers() == #[trigger] after_chunk(
                old(reassembler).buffers(),
                f,
                now,
            ).0 && match after_chunk(old(reassembler).buffers(), f, now).1 {
                Some(d) => r matches Ok(Some(v)) && v@ == d,
                None => r matches Ok(None),
            },
{
    let now = reassembler.now_millis();
    ingest_frame_bytes_at(reassembler, data, now)
}

/// `wire` holds the frames `frames` in wire form, one for one and in order.
pub open spec fn wire_frames(wire: Seq<Vec<u8>>, frames: Seq<ChunkFrame>) -> bool {
    &&& wire.len() == frames.len()
    &&& forall|i: int| 0 <= i < frames.len() ==> #[trigger] wire[i]@ == frame_bytes(frames[i])
}

/// `frames` are what the chunker makes of `bytes` for `mtu`: nothing when the message
/// cannot be chunked, else its consecutive pieces under one message id.
pub open spec fn chunked_for_mtu(frames: Seq<ChunkFrame>, bytes: Seq<u8>, mtu: usize) -> bool {
    if chunkable(bytes.len() as int, mtu) {
        exists|id: u32| #[trigger] is_chunking(frames, bytes, id, payload_capacity(mtu))
    } else {
        frames.len() == 0
    }
}

/// `r` is the BLE wire form of the message `bytes`: its frames for the BLE MTU, each
/// encoded.
pub open spec fn carries_message(r: Result<Vec<Vec<u8>>, TransportError>, bytes: Seq<u8>) -> bool {
    match r {
        Ok(wire) => exists|frames: Seq<ChunkFrame>|
            #[trigger] wire_frames(wire@, frames) && chunked_for_mtu(frames, bytes, BLE_ATT_MTU),
        Err(_) => false,
    }
}

/// Chunks `message_bytes` for the BLE MTU and puts each frame in wire form.
fn wire_chunks(chunker: &MessageChunker, message_bytes: &[u8]) -> (r: Vec<Vec<u8>>)
    requires
        chunker.mtu == BLE_ATT_MTU,
    ensures
        exists|frames: Seq<ChunkFrame>|
            #[trigger] wire_frames(r@, frames) && chunked_for_mtu(frames, message_bytes@, BLE_ATT_MTU),
{
    let frames = chunker.chunk(message_bytes);
    let mut wire: Vec<Vec<u8>> = Vec::new();
    let mut i: usize = 0;
    while i < frames.len()
        invariant
            i <= frames@.len(),
            wire@.len() == i,
            forall|j: int| 0 <= j < i ==> #[trigger] wire@[j]@ == frame_bytes(frames@[j]),
        decreases frames@.len() - i,
    {
        wire.push(encode_chunk(&frames[i]));
        i = i + 1;
    }
    assert(wire_frames(wire@, frames@));
    wire
}

/// The GATT-server side of a BLE link to one peer: the link's state and the
/// reassembler for the frames the peer writes. Messages leave and arrive as bytes.
pub struct BlePeripheral {
    state: ConnectionState,
    remote_peer: PeerIdentity,
    chunker: MessageChunker,
    reassembler: MessageReassembler,
}

impl BlePeripheral {
    /// The link's state.
    pub closed spec fn link_state(&self) -> ConnectionState {
        self.state
    }

    /// The peer on the other side.
    pub closed spec fn peer(&self) -> PeerIdentity {
        self.remote_peer
    }

    /// The partial messages the peer has written so far.
    pub closed spec fn buffers(&self) -> Map<u32, BufferView> {
        self.reassembler.buffers()
    }

    /// Frames are cut for the BLE MTU and the reassembler is well formed.
    pub closed spec fn wf(&self) -> bool {
        self.chunker.mtu == BLE_ATT_MTU && self.reassembler.wf()
    }

    /// A disconnected link to `remote_peer` with no partial message.
    pub fn new(remote_peer: PeerIdentity) -> (r: Self)
        ensures
            r.wf(),
            r.link_state() == ConnectionState::Disconnected,
            r.peer() == remote_peer,
            r.buffers() == Map::<u32, BufferView>::empty(),
    {
        BlePeripheral {
            state: ConnectionState::Disconnected,
            remote_peer,
            chunker: MessageChunker { mtu: BLE_ATT_MTU },
            reassembler: MessageReassembler::new(),
        }
    }

    /// Starts advertising the service; the link counts as connected from then on.
    pub fn start_advertising(&mut self) -> (r: Result<(), TransportError>)
        requires
            old(self).wf(),
        ensures
            r is Ok,
            final(self).wf(),
            final(self).link_state() == ConnectionState::Connected,
            final(self).peer() == old(self).peer(),
            final(self).buffers() == old(self).buffers(),
    {
        self.state = ConnectionState::Connected;
        Ok(())
    }

    /// Takes in one frame the peer wrote, in wire form, at `now`; see
    /// `ingest_frame_bytes_at`. A completed message is returned for the inbox.
    pub fn ingest_chunk_bytes_at(&mut self, data: &[u8], now: u64) -> (r: Result<
        Option<Vec<u8>>,
        TransportError,
    >)
        requires
            old(self).wf(),
        ensures
            final(self).wf(),
            final(self).link_state() == old(self).link_state(),
            final(self).peer() == old(self).peer(),
            !frame_decodes(data@) ==> r == Err::<Option<Vec<u8>>, TransportError>(
                TransportError::BrokenPipe,
            ) && final(self).buffers() == old(self).buffers(),
            frame_decodes(data@) ==> exists|f: ChunkFrame|
                #[trigger] decoded_frame(f, data@) && final(self).buffers() == after_chunk(
                    old(self).buffers(),
                    f,
                    now,
                ).0 && match after_chunk(old(self).buffers(), f, now).1 {
                    Some(d) => r matches Ok(Some(v)) && v@ == d,
                    None => r matches Ok(None),
                },
    {
        ingest_frame_bytes_at(&mut self.reassembler, data, now)
    }

    /// Takes in one frame the peer wrote, in wire form, at the reassembler's current time.
    pub fn ingest_chunk_bytes(&mut self, data: &[u8]) -> (r: Result<Option<Vec<u8>>, TransportError>)
        requires
            old(self).wf(),
        ensures
            final(self).wf(),
            final(self).link_state() == old(self).link_state(),
            final(self).peer() == old(self).peer(),
            !frame_decodes(data@) ==> r == Err::<Option<Vec<u8>>, TransportError>(
                TransportError::BrokenPipe,
            ) && final(self).buffers() == old(self).buffers(),
            frame_decodes(data@) ==> exists|f: ChunkFrame, now: u64|
                #[trigger] decoded_frame(f, data@) && final(self).buffers() == #[trigger] after_chunk(
                    old(self).buffers(),
                    f,
                    now,
                ).0 && match after_chunk(old(self).buffers(), f, now).1 {
                    Some(d) => r matches Ok(Some(v)) && v@ == d,
                    None => r matches Ok(None),
                },
    {
        let now = self.reassembler.now_millis();
        self.ingest_chunk_bytes_at(data, now)
    }

    /// The peer on the other side.
    pub fn remote_peer(&self) -> (r: PeerIdentity)
        ensures
            r == self.peer(),
    {
        self.remote_peer.copy()
    }

    /// Always BLE.
    pub fn transport_type(&self) -> (r: TransportType)
        ensures
            r == TransportType::Ble,
    {
        TransportType::Ble
    }

    /// The link's state.
    pub fn state(&self) -> (r: ConnectionState)
        ensures
            r == self.link_state(),
    {
        self.state
    }

    /// Opens the link by advertising; see `start_advertising`.
    pub fn connect(&mut self) -> (r: Result<(), TransportError>)
        requires
            old(self).wf(),
        ensures
            r is Ok,
            final(self).wf(),
            final(self).link_state() == ConnectionState::Connected,
            final(self).peer() == old(self).peer(),
            final(self).buffers() == old(self).buffers(),
    {
        self.start_advertising()
    }

    /// The frames, in wire form, that carry a serialized message to the peer:
    /// `NotConnected` unless the link is connected.
    pub fn send(&self, message_bytes: &[u8]) -> (r: Result<Vec<Vec<u8>>, TransportError>)
        requires
            self.wf(),
        ensures
            self.link_state() != ConnectionState::Connected ==> r == Err::<
                Vec<Vec<u8>>,
                TransportError,
            >(TransportError::NotConnected),
            self.link_state() == ConnectionState::Connected ==> carries_message(r, message_bytes@),
    {
        if self.state != ConnectionState::Connected {
            return Err(TransportError::NotConnected);
        }
        let wire = wire_chunks(&self.chunker, message_bytes);
        let r = Ok(wire);
        assert(r matches Ok(w) && w@ == wire@);
        r
    }

    /// `NotConnected` unless the link is connected, else `Ok`.
    pub fn ensure_connected(&self) -> (r: Result<(), TransportError>)
        ensures
            r == (if self.link_state() == ConnectionState::Connected {
                Ok::<(), TransportError>(())
            } else {
                Err(TransportError::NotConnected)
            }),
    {
        if self.state != ConnectionState::Connected {
            return Err(TransportError::NotConnected);
        }
        Ok(())
    }

    /// Closes the link.
    pub fn disconnect(&mut self) -> (r: Result<(), TransportError>)
        requires
            old(self).wf(),
        ensures
            r is Ok,
            final(self).wf(),
            final(self).link_state() == ConnectionState::Disconnected,
            final(self).peer() == old(self).peer(),
            final(self).buffers() == old(self).buffers(),
    {
        self.state = ConnectionState::Disconnected;
        Ok(())
    }
}

/// The GATT-client side of a BLE link to one peer. The frames the peer notifies are
/// put back together in a reassembler the caller owns.
pub struct BleCentral {
    state: ConnectionState,
    remote_peer: PeerIdentity,
    chunker: MessageChunker,
}

impl BleCentral {
    /// The link's state.
    pub closed spec fn link_state(&self) -> ConnectionState {
        self.state
    }

    /// The peer on the other side.
    pub closed spec fn peer(&self) -> PeerIdentity {
        self.remote_peer
    }

    /// Frames are cut for the BLE MTU.
    pub closed spec fn wf(&self) -> bool {
        self.chunker.mtu == BLE_ATT_MTU
    }

    /// A disconnected link to `remote_peer`.
    pub fn new(remote_peer: PeerIdentity) -> (r: Self)
        ensures
            r.wf(),
            r.link_state() == ConnectionState::Disconnected,
            r.peer() == remote_peer,
    {
        BleCentral {
            state: ConnectionState::Disconnected,
            remote_peer,
            chunker: MessageChunker { mtu: BLE_ATT_MTU },
        }
    }

    /// Scans for the peer and connects; the link counts as connected from then on.
    pub fn scan_and_connect(&mut self) -> (r: Result<(), TransportError>)
        requires
            old(self).wf(),
        ensures
            r is Ok,
            final(self).wf(),
            final(self).link_state() == ConnectionState::Connected,
            final(self).peer() == old(self).peer(),
    {
        self.state = ConnectionState::Connected;
        Ok(())
    }

    /// Takes in one frame the peer notified, in wire form, at `now`, into `reassembler`;
    /// see `ingest_frame_bytes_at`. A completed message is returned for the inbox.
    pub fn ingest_notification_bytes_at(
        &self,
        data: &[u8],
        reassembler: &mut MessageReassembler,
        now: u64,
    ) -> (r: Result<Option<Vec<u8>>, TransportError>)
        requires
            old(reassembler).wf(),
        ensures
            final(reassembler).wf(),
            !frame_decodes(data@) ==> r == Err::<Option<Vec<u8>>, TransportError>(
                TransportError::BrokenPipe,
            ) && final(reassembler).buffers() == old(reassembler).buffers(),
            frame_decodes(data@) ==> exists|f: ChunkFrame|
                #[trigger] decoded_frame(f, data@) && final(reassembler).buffers() == after_chunk(
                    old(reassembler).buffers(),
                    f,
                    now,
                ).0 && match after_chunk(old(reassembler).buffers(), f, now).1 {
                    Some(d) => r matches Ok(Some(v)) && v@ == d,
                    None => r matches Ok(None),
                },
    {
        ingest_frame_bytes_at(reassembler, data, now)
    }

    /// Takes in one frame the peer notified, in wire form, at the reassembler's current time.
    pub fn ingest_notification_bytes(&self, data: &[u8], reassembler: &mut MessageReassembler) -> (r:
        Result<Option<Vec<u8>>, TransportError>)
        requires
            old(reassembler).wf(),
        ensures
            final(reassembler).wf(),
            !frame_decodes(data@) ==> r == Err::<Option<Vec<u8>>, TransportError>(
                TransportError::BrokenPipe,
            ) && final(reassembler).buffers() == old(reassembler).buffers(),
            frame_decodes(data@) ==> exists|f: ChunkFrame, now: u64|
                #[trigger] decoded_frame(f, data@) && final(reassembler).buffers() == #[trigger] after_chunk(
                    old(reassembler).buffers(),
                    f,
                    now,
                ).0 && match after_chunk(old(reassembler).buffers(), f, now).1 {
                    Some(d) => r matches Ok(Some(v)) && v@ == d,
                    None => r matches Ok(None),
                },
    {
        ingest_frame_bytes(reassembler, data)
    }

    /// The peer on the other side.
    pub fn remote_peer(&self) -> (r: PeerIdentity)
        ensures
            r == self.peer(),
    {
        self.remote_peer.copy()
    }

    /// Always BLE.
    pub fn transport_type(&self) -> (r: TransportType)
        ensures
            r == TransportType::Ble,
    {
        TransportType::Ble
    }

    /// The link's state.
    pub fn state(&self) -> (r: ConnectionState)
        ensures
            r == self.link_state(),
    {
        self.state
    }

    /// Opens the link; see `scan_and_connect`.
    pub fn connect(&mut self) -> (r: Result<(), TransportError>)
        requires
            old(self).wf(),
        ensures
            r is Ok,
            final(self).wf(),
            final(self).link_state() == ConnectionState::Connected,
            final(self).peer() == old(self).peer(),
    {
        self.scan_and_connect()
    }

    /// The frames, in wire form, that carry a serialized message to the peer:
    /// `NotConnected` unless the link is connected.
    pub fn send(&self, message_bytes: &[u8]) -> (r: Result<Vec<Vec<u8>>, TransportError>)
        requires
            self.wf(),
        ensures
            self.link_state() != ConnectionState::Connected ==> r == Err::<
                Vec<Vec<u8>>,
                TransportError,
            >(TransportError::NotConnected),
            self.link_state() == ConnectionState::Connected ==> carries_message(r, message_bytes@),
    {
        if self.state != ConnectionState::Connected {
            return Err(TransportError::NotConnected);
        }
        let wire = wire_chunks(&self.chunker, message_bytes);
        let r = Ok(wire);
        assert(r matches Ok(w) && w@ == wire@);
        r
    }

    /// `NotConnected` unless the link is connected, else `Ok`.
    pub fn ensure_connected(&self) -> (r: Result<(), TransportError>)
        ensures
            r == (if self.link_state() == ConnectionState::Connected {
                Ok::<(), TransportError>(())
            } else {
                Err(TransportError::NotConnected)
            }),
    {
        if self.state != ConnectionState::Connected {
            return Err(TransportError::NotConnected);
        }
        Ok(())
    }

    /// Closes the link.
    pub fn disconnect(&mut self) -> (r: Result<(), TransportError>)
        requires
            old(self).wf(),
        ensures
            r is Ok,
            final(self).wf(),
            final(self).link_state() == ConnectionState::Disconnected,
            final(self).peer() == old(self).peer(),
    {
        self.state = ConnectionState::Disconnected;
        Ok(())
    }
}

} // verus!

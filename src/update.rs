//! The update protocol: a version handshake, then 4-byte file requests,
//! answered with the archive's bytes split into 512-byte network blocks.
use vstd::prelude::*;
use crate::be::{be_u16, be_u32, u16_bytes, read_u16, read_u32, push_u16, push_range};
use crate::checksum_table::{ChecksumTable, table_body};
use crate::container::{Container, container_bytes, COMPRESSION_NONE};
use crate::error::{StoreError, bytes_result};
use crate::filestore::{FileStore, archive};

verus! {

/// The service id of the update handshake.
pub const HANDSHAKE_UPDATE: u8 = 15;
/// The only client build that is served.
pub const VERSION: u32 = 530;
pub const STATUS_OK: u8 = 0;
pub const STATUS_OUT_OF_DATE: u8 = 6;
/// Payload bytes in the first block of a response, after its 4-byte header.
pub const FIRST_CHUNK: usize = 508;
/// Payload bytes in each later block, after its separator byte.
pub const NEXT_CHUNK: usize = 511;
/// The byte that opens each later block.
pub const SEPARATOR: u8 = 0xFF;

/// Where a connection stands.
#[derive(Debug, Clone, Copy, PartialEq, Eq, Structural)]
pub enum GameState {
    Handshake,
    Update,
}

/// What a connection's bytes ask for.
#[derive(Debug, Clone, Copy, PartialEq, Eq, Structural)]
pub enum Frame {
    /// A handshake was read; the server answers with this status.
    Status { status_id: u8 },
    /// A file request: `priority` is set for opcode 1.
    Request { type_id: u8, file_id: u16, priority: bool },
}

/// A message to send to a client.
#[derive(Debug)]
pub enum GameMessage {
    UpdateStatus { status_id: u8 },
    FileResponse { type_id: u8, file_id: u16, priority: bool, container: Vec<u8> },
}

/// The next request frame of the Update phase at or after `pos`: discarded
/// frames (unknown opcodes) are skipped, and a frame is only taken whole.
/// Gives how far the bytes are consumed and the request, if any.
pub open spec fn next_request(s: Seq<u8>, pos: int) -> (int, Option<Frame>)
    decreases s.len() - pos,
{
    if pos < 0 || s.len() - pos < 4 {
        (pos, None)
    } else if s[pos] == 0 || s[pos] == 1 {
        (pos + 4, Some(Frame::Request { type_id: s[pos + 1], file_id: be_u16(s, pos + 2) as u16, priority: s[pos] == 1 }))
    } else {
        next_request(s, pos + 4)
    }
}

/// What decoding the buffered bytes `s` in `state` yields: the next state,
/// how many bytes are consumed, and the frame, if a whole one was there.
pub open spec fn decode_spec(state: GameState, s: Seq<u8>) -> Result<(GameState, int, Option<Frame>), StoreError> {
    match state {
        GameState::Handshake => if s.len() == 0 {
            Ok((state, 0, None))
        } else if s[0] != HANDSHAKE_UPDATE {
            Err(StoreError::InvalidData)
        } else if s.len() < 5 {
            Ok((state, 0, None))
        } else if be_u32(s, 1) == VERSION {
            Ok((GameState::Update, 5, Some(Frame::Status { status_id: STATUS_OK })))
        } else {
            Ok((GameState::Handshake, 5, Some(Frame::Status { status_id: STATUS_OUT_OF_DATE })))
        },
        GameState::Update => {
            let (n, f) = next_request(s, 0);
            Ok((GameState::Update, n, f))
        },
    }
}

pub open spec fn decode_result(r: Result<(GameState, usize, Option<Frame>), StoreError>) -> Result<
    (GameState, int, Option<Frame>),
    StoreError,
> {
    match r {
        Ok((st, n, f)) => Ok((st, n as int, f)),
        Err(e) => Err(e),
    }
}

/// Decodes the next frame from the bytes buffered so far. The caller drops
/// the consumed bytes from the front of its buffer and keeps the rest.
pub fn decode_frame(state: GameState, src: &[u8]) -> (r: Result<(GameState, usize, Option<Frame>), StoreError>)
    ensures
        decode_result(r) == decode_spec(state, src@),
        r is Ok ==> r->Ok_0.1 <= src@.len(),
{
    let n = src.len();
    match state {
        GameState::Handshake => {
            if n == 0 {
                return Ok((state, 0, None));
            }
            if src[0] != HANDSHAKE_UPDATE {
                return Err(StoreError::InvalidData);
            }
            if n < 5 {
                return Ok((state, 0, None));
            }
            if read_u32(src, 1) == VERSION {
                Ok((GameState::Update, 5, Some(Frame::Status { status_id: STATUS_OK })))
            } else {
                Ok((GameState::Handshake, 5, Some(Frame::Status { status_id: STATUS_OUT_OF_DATE })))
            }
        },
        GameState::Update => {
            let mut pos: usize = 0;
            while n - pos >= 4
                invariant
                    n == src@.len(),
                    state == GameState::Update,
                    pos <= n,
                    next_request(src@, pos as int) == next_request(src@, 0),
                decreases n - pos,
            {
                let opcode = src[pos];
                if opcode == 0 || opcode == 1 {
                    let type_id = src[pos + 1];
                    let file_id = read_u16(src, pos + 2);
                    return Ok((GameState::Update, pos + 4, Some(Frame::Request { type_id, file_id, priority: opcode == 1 })));
                }
                pos = pos + 4;
            }
            Ok((GameState::Update, pos, None))
        },
    }
}

/// The payload served for a request: the plain checksum table in an
/// uncompressed container for (255, 255); else the archive, without its
/// two-byte version trailer unless it is a reference table (type 255).
/// An empty payload cannot be framed and is refused.
pub open spec fn payload_spec(data: Seq<u8>, index: Seq<u8>, table: Seq<u8>, type_id: u8, file_id: u16) -> Result<Seq<u8>, StoreError> {
    if type_id == 255 && file_id == 255 {
        if table.len() > u32::MAX {
            Err(StoreError::InvalidData)
        } else {
            Ok(container_bytes(COMPRESSION_NONE, table.len() as int, table, -1i16))
        }
    } else {
        match archive(data, index, file_id as int) {
            Err(e) => Err(e),
            Ok(a) => {
                let p = if type_id == 255 { a } else { a.subrange(0, a.len() - 2) };
                if (type_id != 255 && a.len() < 2) || p.len() == 0 {
                    Err(StoreError::InvalidData)
                } else {
                    Ok(p)
                }
            },
        }
    }
}

/// Computes the payload that answers a request.
pub fn dispatch(store: &FileStore, table: &ChecksumTable, type_id: u8, file_id: u16) -> (r: Result<Vec<u8>, StoreError>)
    ensures
        !store.has_type(type_id as int) && !(type_id == 255 && file_id == 255) ==> r == Err::<Vec<u8>, StoreError>(StoreError::NotFound),
        store.has_type(type_id as int) || (type_id == 255 && file_id == 255) ==> bytes_result(r) == payload_spec(
            store.spec_data(),
            store.spec_index(type_id as int),
            table_body(table@, false),
            type_id,
            file_id,
        ),
        r is Ok ==> r->Ok_0@.len() >= 1,
{
    if type_id == 255 && file_id == 255 {
        let body = table.encode();
        if body.len() > u32::MAX as usize {
            return Err(StoreError::InvalidData);
        }
        let container = Container::new(COMPRESSION_NONE, body);
        let encoded = container.encode();
        assert(encoded is Ok);
        return encoded;
    }
    let mut data = match store.read(type_id as usize, file_id as usize) {
        Ok(d) => d,
        Err(e) => {
            return Err(e);
        },
    };
    if type_id != 255 {
        if data.len() < 2 {
            return Err(StoreError::InvalidData);
        }
        let len = data.len();
        data.truncate(len - 2);
        assert(data@ =~= archive(store.spec_data(), store.spec_index(type_id as int), file_id as int)->Ok_0.subrange(0, len - 2));
    }
    if data.len() == 0 {
        return Err(StoreError::InvalidData);
    }
    Ok(data)
}

/// The later blocks of a response: a separator and up to 511 bytes each.
pub open spec fn chunks(s: Seq<u8>) -> Seq<u8>
    decreases s.len(),
{
    if s.len() == 0 {
        Seq::empty()
    } else if s.len() <= 511 {
        seq![SEPARATOR] + s
    } else {
        seq![SEPARATOR] + s.take(511) + chunks(s.skip(511))
    }
}

/// The blocks with their separators taken out.
pub open spec fn unchunk(s: Seq<u8>) -> Seq<u8>
    decreases s.len(),
{
    if s.len() == 0 {
        Seq::empty()
    } else if s.len() <= 512 {
        s.skip(1)
    } else {
        s.subrange(1, 512) + unchunk(s.skip(512))
    }
}

pub open spec fn min(a: int, b: int) -> int {
    if a < b { a } else { b }
}

/// The compression byte as sent: its high bit marks a normal-priority request.
pub open spec fn flagged(c: u8, priority: bool) -> u8 {
    if priority { c } else { c | 0x80 }
}

/// A file response on the wire: the type, the file, the flagged compression
/// byte and up to 508 further payload bytes, then the later blocks.
pub open spec fn response_bytes(type_id: u8, file_id: u16, priority: bool, payload: Seq<u8>) -> Seq<u8> {
    let first = min(payload.len() as int, 509);
    seq![type_id] + u16_bytes(file_id as int) + seq![flagged(payload[0], priority)] + payload.subrange(1, first)
        + chunks(payload.skip(first))
}

impl GameMessage {
    pub open spec fn well_formed(&self) -> bool {
        match self {
            GameMessage::UpdateStatus { .. } => true,
            GameMessage::FileResponse { container, .. } => container@.len() >= 1,
        }
    }

    /// The bytes of the message on the wire.
    pub fn encode(&self) -> (r: Vec<u8>)
        requires
            self.well_formed(),
        ensures
            match self {
                GameMessage::UpdateStatus { status_id } => r@ == seq![*status_id],
                GameMessage::FileResponse { type_id, file_id, priority, container } => r@ == response_bytes(
                    *type_id,
                    *file_id,
                    *priority,
                    container@,
                ),
            },
    {
        match self {
            GameMessage::UpdateStatus { status_id } => {
                let mut r: Vec<u8> = Vec::new();
                r.push(*status_id);
                assert(r@ =~= seq![*status_id]);
                r
            },
            GameMessage::FileResponse { type_id, file_id, priority, container } => {
                encode_response(*type_id, *file_id, *priority, container.as_slice())
            },
        }
    }
}

/// Frames a payload into network blocks.
pub fn encode_response(type_id: u8, file_id: u16, priority: bool, payload: &[u8]) -> (r: Vec<u8>)
    requires
        payload@.len() >= 1,
    ensures
        r@ == response_bytes(type_id, file_id, priority, payload@),
{
    let n = payload.len();
    let mut dst: Vec<u8> = Vec::new();
    dst.push(type_id);
    push_u16(&mut dst, file_id);
    let compression = if priority {
        payload[0]
    } else {
        payload[0] | 0x80
    };
    dst.push(compression);
    let first = if n < 509 { n } else { 509 };
    push_range(&mut dst, payload, 1, first);
    let ghost head = dst@;
    assert(head =~= seq![type_id] + u16_bytes(file_id as int) + seq![flagged(payload@[0], priority)] + payload@.subrange(1, first as int));
    let mut pos: usize = first;
    while pos < n
        invariant
            n == payload@.len(),
            first <= pos <= n,
            dst@ + chunks(payload@.skip(pos as int)) == head + chunks(payload@.skip(first as int)),
        decreases n - pos,
    {
        let take = if n - pos > NEXT_CHUNK { NEXT_CHUNK } else { n - pos };
        let ghost rest = payload@.skip(pos as int);
        dst.push(SEPARATOR);
        push_range(&mut dst, payload, pos, pos + take);
        proof {
            if rest.len() <= 511 {
                assert(payload@.subrange(pos as int, pos + take) =~= rest);
                assert(payload@.skip(pos + take) =~= Seq::<u8>::empty());
            } else {
                assert(payload@.subrange(pos as int, pos + take) =~= rest.take(511));
                assert(payload@.skip(pos + take) =~= rest.skip(511));
            }
            assert(dst@ + chunks(payload@.skip(pos + take)) =~= head + chunks(payload@.skip(first as int)));
        }
        pos = pos + take;
    }
    assert(payload@.skip(n as int) =~= Seq::<u8>::empty());
    assert(dst@ + Seq::<u8>::empty() =~= dst@);
    dst
}

/// How many separators the later blocks of `k` bytes carry: one per 511
/// bytes, the last block possibly short.
pub open spec fn separators(k: int) -> int {
    if k <= 0 { 0 } else { (k + 510) / 511 }
}

proof fn lemma_chunks(s: Seq<u8>)
    ensures
        chunks(s).len() == s.len() + separators(s.len() as int),
        unchunk(chunks(s)) == s,
    decreases s.len(),
{
    if s.len() == 0 {
    } else if s.len() <= 511 {
        assert((seq![SEPARATOR] + s).skip(1) =~= s);
    } else {
        let rest = s.skip(511);
        lemma_chunks(rest);
        let c = chunks(s);
        assert(c =~= seq![SEPARATOR] + s.take(511) + chunks(rest));
        assert(c.subrange(1, 512) =~= s.take(511));
        assert(c.skip(512) =~= chunks(rest));
        assert(s.take(511) + rest =~= s);
        assert(separators(s.len() as int) == 1 + separators(rest.len() as int));
    }
}

proof fn lemma_chunk_separators(s: Seq<u8>, m: int)
    requires
        0 <= m,
        512 * m < chunks(s).len(),
    ensures
        chunks(s)[512 * m] == SEPARATOR,
    decreases s.len(),
{
    if s.len() > 511 && m > 0 {
        let rest = s.skip(511);
        assert(chunks(s) =~= seq![SEPARATOR] + s.take(511) + chunks(rest));
        lemma_chunk_separators(rest, m - 1);
        assert(chunks(s)[512 * m] == chunks(rest)[512 * (m - 1)]);
    }
}

/// Every block after the first opens with the separator byte.
pub proof fn lemma_response_separators(type_id: u8, file_id: u16, priority: bool, payload: Seq<u8>, k: int)
    requires
        payload.len() >= 1,
        k >= 1,
        512 * k < response_bytes(type_id, file_id, priority, payload).len(),
    ensures
        response_bytes(type_id, file_id, priority, payload)[512 * k] == SEPARATOR,
{
    let first = min(payload.len() as int, 509);
    let stream = response_bytes(type_id, file_id, priority, payload);
    let rest = payload.skip(first);
    lemma_chunks(rest);
    assert(stream =~= seq![type_id] + u16_bytes(file_id as int) + seq![flagged(payload[0], priority)] + payload.subrange(1, first) + chunks(rest));
    if payload.len() < 509 {
        assert(rest.len() == 0);
    } else {
        lemma_chunk_separators(rest, k - 1);
        assert(stream[512 * k] == chunks(rest)[512 * (k - 1)]);
    }
}

/// A response is its 4-byte header, the payload after the compression byte,
/// and one separator per later block; taking away the header and the
/// separators gives back the payload after the compression byte.
pub proof fn lemma_response_frames(type_id: u8, file_id: u16, priority: bool, payload: Seq<u8>)
    requires
        payload.len() >= 1,
    ensures
        ({
            let stream = response_bytes(type_id, file_id, priority, payload);
            let l = payload.len() - 1;
            &&& stream.len() == 4 + l + separators(l - 508)
            &&& stream.subrange(4, 4 + min(l, 508)) + unchunk(stream.skip(4 + min(l, 508))) == payload.skip(1)
        }),
{
    let first = min(payload.len() as int, 509);
    let stream = response_bytes(type_id, file_id, priority, payload);
    let rest = payload.skip(first);
    lemma_chunks(rest);
    assert(stream =~= seq![type_id] + u16_bytes(file_id as int) + seq![flagged(payload[0], priority)] + payload.subrange(1, first) + chunks(rest));
    assert(stream.subrange(4, 4 + first - 1) =~= payload.subrange(1, first));
    assert(stream.skip(4 + first - 1) =~= chunks(rest));
    assert(payload.subrange(1, first) + rest =~= payload.skip(1));
}

/// The framing law as a closed formula: a payload of `l` bytes after the
/// compression byte is sent as `4 + l + (l - 508) / 511` bytes, wherever the
/// bytes past the first block fill whole blocks.
pub proof fn lemma_framing_law(type_id: u8, file_id: u16, priority: bool, payload: Seq<u8>)
    requires
        payload.len() >= 1,
        payload.len() - 1 <= 508 || (payload.len() - 1 - 508) % 511 == 0,
    ensures
        ({
            let l = payload.len() - 1;
            let extra = if l > 508 { l - 508 } else { 0 };
            response_bytes(type_id, file_id, priority, payload).len() == 4 + l + extra / 511
        }),
{
    lemma_response_frames(type_id, file_id, priority, payload);
    let l = payload.len() - 1;
    if l > 508 {
        assert((l - 508 + 510) / 511 == (l - 508) / 511) by (nonlinear_arith)
            requires
                l > 508,
                (l - 508) % 511 == 0,
        ;
    }
}

} // verus!

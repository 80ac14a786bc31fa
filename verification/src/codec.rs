//! Frames: a little-endian 32-bit length, then the payload.

use crate::protocol::MAX_FRAME_LEN;
use crate::text::decimal;
use vstd::prelude::*;

verus! {

/// Why a stream operation failed.
#[derive(Debug, Clone, Copy, PartialEq, Eq, Structural)]
pub enum IoKind {
    UnexpectedEof,
    Other,
}

/// What can go wrong between two processes.
#[derive(Debug)]
pub enum IpcError {
    Io(IoKind, String),
    Encode(String),
    Decode(String),
    JsonEncode(String),
    JsonDecode(String),
    FrameTooLarge { len: u32, max: u32 },
    Protocol(String),
}

impl IpcError {
    /// The text of an error.
    pub open spec fn text(&self) -> Seq<char> {
        match *self {
            IpcError::Io(_, e) => "I/O error: "@ + e@,
            IpcError::Encode(e) => "encode error: "@ + e@,
            IpcError::Decode(e) => "decode error: "@ + e@,
            IpcError::JsonEncode(e) => "JSON encode error: "@ + e@,
            IpcError::JsonDecode(e) => "JSON decode error: "@ + e@,
            IpcError::FrameTooLarge { len, max } => "frame too large: declared "@
                + crate::text::decimal_text(len as nat) + " bytes exceeds max "@
                + crate::text::decimal_text(max as nat),
            IpcError::Protocol(e) => "protocol error: "@ + e@,
        }
    }

    /// The text of an error.
    pub fn message(&self) -> (r: String)
        ensures
            r@ == self.text(),
    {
        match self {
            IpcError::Io(_, e) => String::from_str("I/O error: ").concat(e.as_str()),
            IpcError::Encode(e) => String::from_str("encode error: ").concat(e.as_str()),
            IpcError::Decode(e) => String::from_str("decode error: ").concat(e.as_str()),
            IpcError::JsonEncode(e) => String::from_str("JSON encode error: ").concat(e.as_str()),
            IpcError::JsonDecode(e) => String::from_str("JSON decode error: ").concat(e.as_str()),
            IpcError::FrameTooLarge { len, max } => {
                String::from_str("frame too large: declared ").concat(
                    decimal(*len as u64).as_str(),
                ).concat(" bytes exceeds max ").concat(decimal(*max as u64).as_str())
            },
            IpcError::Protocol(e) => String::from_str("protocol error: ").concat(e.as_str()),
        }
    }
}

/// A number as four bytes, least significant first.
pub open spec fn le_bytes(n: u32) -> Seq<u8> {
    seq![
        (n % 256) as u8,
        (n / 256 % 256) as u8,
        (n / 65536 % 256) as u8,
        (n / 16777216) as u8,
    ]
}

/// The frame that carries `payload`. The length field holds the low 32 bits of
/// the payload's length.
pub open spec fn frame(payload: Seq<u8>) -> Seq<u8> {
    le_bytes(payload.len() as u32) + payload
}

/// The length that the first four bytes declare.
pub open spec fn declared(bytes: Seq<u8>) -> u32 {
    (bytes[0] + 256 * bytes[1] + 65536 * bytes[2] + 16777216 * bytes[3]) as u32
}

/// A number as four bytes, least significant first.
fn encode_len(n: u32) -> (r: Vec<u8>)
    ensures
        r@ == le_bytes(n),
{
    let mut r: Vec<u8> = Vec::new();
    r.push((n % 256) as u8);
    r.push((n / 256 % 256) as u8);
    r.push((n / 65536 % 256) as u8);
    r.push((n / 16777216) as u8);
    assert(r@ =~= le_bytes(n));
    r
}

/// The four bytes of a number declare that number.
proof fn lemma_declared(n: u32, after: Seq<u8>)
    ensures
        declared(le_bytes(n) + after) == n,
{
    let all = le_bytes(n) + after;
    assert(all[0] == (n % 256) as u8);
    assert(all[1] == (n / 256 % 256) as u8);
    assert(all[2] == (n / 65536 % 256) as u8);
    assert(all[3] == (n / 16777216) as u8);
    assert(n / 16777216 < 256);
}

/// What reading one frame from `bytes` comes to.
pub enum FrameOutcome {
    /// A payload; the next frame starts after `used` bytes.
    Frame { payload: Seq<u8>, used: int },
    /// The declared length exceeds the limit.
    TooLarge { len: u32 },
    /// The bytes end inside the frame.
    Truncated,
}

/// What reading one frame from `bytes` comes to under a limit on the payload.
pub open spec fn frame_outcome(bytes: Seq<u8>, limit: u32) -> FrameOutcome {
    if bytes.len() < 4 {
        FrameOutcome::Truncated
    } else if declared(bytes) > limit {
        FrameOutcome::TooLarge { len: declared(bytes) }
    } else if bytes.len() < 4 + declared(bytes) {
        FrameOutcome::Truncated
    } else {
        FrameOutcome::Frame {
            payload: bytes.subrange(4, 4 + declared(bytes)),
            used: 4 + declared(bytes),
        }
    }
}

/// A frame holding `payload`, ready to send.
pub fn encode_frame(payload: &Vec<u8>) -> (r: Vec<u8>)
    ensures
        r@ == frame(payload@),
{
    let mut r = encode_len(payload.len() as u32);
    r.extend_from_slice(payload.as_slice());
    assert(r@ =~= frame(payload@));
    r
}

/// The length that a frame's prefix declares, refused where it exceeds `limit`.
pub fn payload_len(prefix: &[u8], limit: u32) -> (r: Result<u32, IpcError>)
    requires
        prefix@.len() == 4,
    ensures
        match r {
            Ok(n) => n == declared(prefix@) && n <= limit,
            Err(e) => declared(prefix@) > limit && e == (IpcError::FrameTooLarge {
                len: declared(prefix@),
                max: limit,
            }),
        },
{
    let len: u32 = prefix[0] as u32 + 256 * (prefix[1] as u32) + 65536 * (prefix[2] as u32)
        + 16777216 * (prefix[3] as u32);
    if len > limit {
        return Err(IpcError::FrameTooLarge { len, max: limit });
    }
    Ok(len)
}

/// Bytes received so far, and how many of them have been read.
pub struct ByteReader {
    pub bytes: Vec<u8>,
    pub pos: usize,
}

impl ByteReader {
    /// The position stands inside the bytes or at their end.
    pub open spec fn wf(&self) -> bool {
        self.pos <= self.bytes@.len()
    }

    /// What has not been read yet.
    pub open spec fn remaining(&self) -> Seq<u8> {
        self.bytes@.skip(self.pos as int)
    }

    pub fn new(bytes: Vec<u8>) -> (r: Self)
        ensures
            r.wf(),
            r.remaining() == bytes@,
            r.bytes == bytes,
    {
        let r = ByteReader { bytes, pos: 0 };
        assert(r.remaining() =~= bytes@);
        r
    }

    /// Reads exactly `n` bytes, or fails at the end of the bytes.
    pub fn read_exact(&mut self, n: usize) -> (r: Result<Vec<u8>, IpcError>)
        requires
            old(self).wf(),
        ensures
            final(self).wf(),
            final(self).bytes == old(self).bytes,
            match r {
                Ok(v) => {
                    &&& n <= old(self).remaining().len()
                    &&& v@ == old(self).remaining().take(n as int)
                    &&& final(self).remaining() == old(self).remaining().skip(n as int)
                },
                Err(e) => {
                    &&& old(self).remaining().len() < n
                    &&& e matches IpcError::Io(IoKind::UnexpectedEof, _)
                    &&& final(self).remaining().len() == 0
                },
            },
    {
        let left: usize = self.bytes.len() - self.pos;
        if left < n {
            self.pos = self.bytes.len();
            return Err(
                IpcError::Io(
                    IoKind::UnexpectedEof,
                    String::from_str("failed to fill whole buffer"),
                ),
            );
        }
        let mut out: Vec<u8> = Vec::new();
        let mut i: usize = 0;
        while i < n
            invariant
                i <= n,
                self.pos + n <= self.bytes.len(),
                *self == *old(self),
                out@ == self.remaining().take(i as int),
            decreases n - i,
        {
            out.push(self.bytes[self.pos + i]);
            assert(out@ =~= self.remaining().take(i + 1));
            i = i + 1;
        }
        self.pos = self.pos + n;
        assert(self.remaining() =~= old(self).remaining().skip(n as int));
        Ok(out)
    }
}

/// The reader's answer and its new state are what `outcome` says.
pub open spec fn read_matches(
    r: Result<Vec<u8>, IpcError>,
    outcome: FrameOutcome,
    limit: u32,
    before: ByteReader,
    after: ByteReader,
) -> bool {
    match outcome {
        FrameOutcome::Frame { payload, used } => {
            &&& r matches Ok(v) && v@ == payload
            &&& after.remaining() == before.remaining().skip(used)
        },
        FrameOutcome::TooLarge { len } => {
            &&& r matches Err(e) && e == (IpcError::FrameTooLarge { len, max: limit })
            &&& after.remaining() == before.remaining().skip(4)
        },
        FrameOutcome::Truncated => {
            &&& r matches Err(IpcError::Io(IoKind::UnexpectedEof, _))
            &&& after.remaining().len() == 0
        },
    }
}

/// Reads the payload of one frame of at most `limit` bytes. A longer frame is
/// refused before any of its payload is read.
pub fn read_limited_frame(reader: &mut ByteReader, limit: u32) -> (r: Result<Vec<u8>, IpcError>)
    requires
        old(reader).wf(),
    ensures
        final(reader).wf(),
        read_matches(
            r,
            frame_outcome(old(reader).remaining(), limit),
            limit,
            *old(reader),
            *final(reader),
        ),
{
    let ghost rest = reader.remaining();
    let prefix = match reader.read_exact(4) {
        Ok(p) => p,
        Err(e) => return Err(e),
    };
    assert(declared(prefix@) == declared(rest));
    let len: u32 = match payload_len(prefix.as_slice(), limit) {
        Ok(n) => n,
        Err(e) => return Err(e),
    };
    let payload = match reader.read_exact(len as usize) {
        Ok(p) => p,
        Err(e) => return Err(e),
    };
    assert(payload@ =~= rest.subrange(4, 4 + len));
    assert(reader.remaining() =~= rest.skip(4 + len));
    Ok(payload)
}

/// Reads the payload of one frame, without committing to an encoding.
pub fn read_frame_sync(reader: &mut ByteReader) -> (r: Result<Vec<u8>, IpcError>)
    requires
        old(reader).wf(),
    ensures
        final(reader).wf(),
        read_matches(
            r,
            frame_outcome(old(reader).remaining(), MAX_FRAME_LEN),
            MAX_FRAME_LEN,
            *old(reader),
            *final(reader),
        ),
{
    read_limited_frame(reader, MAX_FRAME_LEN)
}

/// Reading a frame gives back the payload that was written, and leaves what follows.
pub proof fn law_read_returns_what_was_written(payload: Seq<u8>, after: Seq<u8>, limit: u32)
    requires
        payload.len() <= limit,
    ensures
        frame_outcome(frame(payload) + after, limit) == (FrameOutcome::Frame {
            payload,
            used: frame(payload).len() as int,
        }),
        (frame(payload) + after).skip(frame(payload).len() as int) == after,
{
    let n = payload.len() as u32;
    let all = frame(payload) + after;
    assert(all =~= le_bytes(n) + (payload + after));
    lemma_declared(n, payload + after);
    assert(all.subrange(4, 4 + n) =~= payload);
    assert(all.skip(frame(payload).len() as int) =~= after);
}

/// A declared length over the limit is refused whatever follows it, even nothing.
pub proof fn law_over_length_is_refused(len: u32, after: Seq<u8>, limit: u32)
    requires
        len > limit,
    ensures
        frame_outcome(le_bytes(len) + after, limit)
            == (FrameOutcome::TooLarge { len }),
{
    lemma_declared(len, after);
}

/// A frame that is cut short is never taken for a whole one.
pub proof fn law_cut_frame_is_truncated(payload: Seq<u8>, cut: int, limit: u32)
    requires
        payload.len() <= limit,
        0 <= cut < frame(payload).len(),
    ensures
        frame_outcome(frame(payload).take(cut), limit) is Truncated,
{
    let n = payload.len() as u32;
    if cut >= 4 {
        assert(frame(payload).take(cut) =~= le_bytes(n) + payload.take(cut - 4));
        lemma_declared(n, payload.take(cut - 4));
    }
}

/// A frame is the payload's length in four bytes, the least significant first, and
/// then the payload.
pub proof fn law_how_a_frame_is_laid_out(payload: Seq<u8>)
    requires
        payload.len() <= u32::MAX,
    ensures
        frame(payload).len() == payload.len() + 4,
        frame(payload)[0] == payload.len() % 256,
        frame(payload)[1] == (payload.len() / 256) % 256,
        frame(payload)[2] == (payload.len() / 65536) % 256,
        frame(payload)[3] == payload.len() / 16777216,
        frame(payload).skip(4) == payload,
{
    assert(frame(payload).skip(4) =~= payload);
}

/// What a reader gets is what the bytes hold: the payload that their first four
/// bytes measure, whole or not at all, and never one over the limit. It goes on
/// behind the frame.
pub proof fn law_what_a_reader_gets(
    r: Result<Vec<u8>, IpcError>,
    limit: u32,
    before: ByteReader,
    after: ByteReader,
)
    requires
        before.wf(),
        read_matches(r, frame_outcome(before.remaining(), limit), limit, before, after),
    ensures
        ({
            let bytes = before.bytes@.skip(before.pos as int);
            let rest = after.bytes@.skip(after.pos as int);
            let len = bytes[0] + 256 * bytes[1] + 65536 * bytes[2] + 16777216 * bytes[3];
            &&& r is Ok <==> bytes.len() >= 4 && len <= limit && bytes.len() >= 4 + len
            &&& r matches Ok(v) ==> v@ == bytes.subrange(4, 4 + len) && rest == bytes.skip(4 + len)
            &&& r matches Err(IpcError::FrameTooLarge { len: n, max }) ==> bytes.len() >= 4 && n
                == len && len > limit && max == limit
            &&& bytes.len() >= 4 && len > limit ==> (r matches Err(IpcError::FrameTooLarge { .. }))
            &&& bytes.len() >= 4 && len > limit ==> rest == bytes.skip(4)
            &&& r matches Err(IpcError::Io(_, _)) ==> rest.len() == 0
            &&& bytes.len() < 4 || (len <= limit && bytes.len() < 4 + len) ==> (
            r matches Err(IpcError::Io(IoKind::UnexpectedEof, _)))
        }),
        MAX_FRAME_LEN == 67108864,
{
}

/// The text of an error tells where it came from, and what was said.
pub proof fn law_what_errors_say(e: IpcError)
    ensures
        e matches IpcError::Io(_, m) ==> e.text() == "I/O error: "@ + m@,
        e matches IpcError::Encode(m) ==> e.text() == "encode error: "@ + m@,
        e matches IpcError::Decode(m) ==> e.text() == "decode error: "@ + m@,
        e matches IpcError::JsonEncode(m) ==> e.text() == "JSON encode error: "@ + m@,
        e matches IpcError::JsonDecode(m) ==> e.text() == "JSON decode error: "@ + m@,
        e matches IpcError::Protocol(m) ==> e.text() == "protocol error: "@ + m@,
        e matches IpcError::FrameTooLarge { len, max } ==> e.text()
            == "frame too large: declared "@ + crate::text::decimal_text(len as nat)
            + " bytes exceeds max "@ + crate::text::decimal_text(max as nat),
{
}

} // verus!

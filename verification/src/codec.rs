//! Framed wire protocol.
//!
//! A frame on the wire is an 11-byte header followed by the body: one byte
//! each for version, module and action, the body length as a big-endian
//! 32-bit integer, and a redundant 4-byte route mirroring the three leading
//! bytes.  Decoding rejects frames whose declared length exceeds the
//! configured maximum, reports short input as incomplete so a reader can
//! wait for more bytes, and otherwise returns the frame together with the
//! number of bytes consumed.

use vstd::prelude::*;

verus! {

/// Size of the fixed frame header on the wire.
pub const FRAME_HEADER_LENGTH: usize = 11;

/// Largest body a peer may declare: 16 MiB.
pub const MAX_FRAME_LENGTH: u32 = 16 * 1024 * 1024;

pub const VERSION_V0: u8 = 0;

pub const VERSION_V1: u8 = 1;

pub const MODULE_P2P: u8 = 0;

pub const MODULE_EXTERNAL: u8 = 1;

pub const ACTION_DISCONNECT: u8 = 0;

pub const ACTION_HANDSHAKEREQ: u8 = 1;

pub const ACTION_HANDSHAKERES: u8 = 2;

pub const ACTION_PING: u8 = 3;

pub const ACTION_PONG: u8 = 4;

pub const ACTION_ACTIVENODESREQ: u8 = 5;

pub const ACTION_ACTIVENODESRES: u8 = 6;

pub const SYNC_ACTION_STATUSREQ: u8 = 0;

pub const SYNC_ACTION_STATUSRES: u8 = 1;

pub const SYNC_ACTION_BLOCKSHEADERSREQ: u8 = 2;

pub const SYNC_ACTION_BLOCKSHEADERSRES: u8 = 3;

/// The fixed per-frame header fields.
#[derive(Clone, Copy, Debug, PartialEq, Eq, Structural)]
pub struct Head {
    pub ver: u8,
    pub ctrl: u8,
    pub action: u8,
    pub len: u32,
}

/// A frame: header plus opaque body bytes.
#[derive(Clone, Debug)]
pub struct ChannelBuffer {
    pub head: Head,
    pub body: Vec<u8>,
}

/// A frame is well formed when its declared length is the body length and
/// stays within the configured maximum.
pub open spec fn spec_wf_frame(f: ChannelBuffer) -> bool {
    &&& f.head.len == f.body@.len()
    &&& f.head.len <= MAX_FRAME_LENGTH
}

impl ChannelBuffer {
    /// An empty version-zero frame.
    pub fn new() -> (r: ChannelBuffer)
        ensures
            r.head == (Head { ver: 0u8, ctrl: 0u8, action: 0u8, len: 0u32 }),
            r.body@ =~= Seq::<u8>::empty(),
            spec_wf_frame(r),
    {
        ChannelBuffer { head: Head { ver: 0, ctrl: 0, action: 0, len: 0 }, body: Vec::new() }
    }

    /// Whether the declared length matches the body and the size cap.
    pub fn is_well_formed(&self) -> (r: bool)
        ensures
            r == spec_wf_frame(*self),
    {
        self.head.len as usize == self.body.len() && self.head.len <= MAX_FRAME_LENGTH
    }
}

/// Copy a byte vector.
pub fn copy_bytes(v: &Vec<u8>) -> (r: Vec<u8>)
    ensures
        r@ =~= v@,
{
    let mut out: Vec<u8> = Vec::new();
    let mut i: usize = 0;
    while i < v.len()
        invariant
            i <= v@.len(),
            out@ =~= v@.subrange(0, i as int),
        decreases v@.len() - i,
    {
        out.push(v[i]);
        i = i + 1;
    }
    proof {
        assert(out@ =~= v@);
    }
    out
}

/// The four big-endian bytes of a 32-bit integer.
pub open spec fn spec_be32(n: u32) -> Seq<u8> {
    seq![(n >> 24) as u8, (n >> 16) as u8, (n >> 8) as u8, n as u8]
}

/// The 32-bit integer assembled from four big-endian bytes.
pub open spec fn spec_be32_val(b0: u8, b1: u8, b2: u8, b3: u8) -> u32 {
    ((b0 as u32) << 24) | ((b1 as u32) << 16) | ((b2 as u32) << 8) | (b3 as u32)
}

/// Splitting an integer into big-endian bytes and reassembling them is the
/// identity.
pub proof fn lemma_be32_round_trip(n: u32)
    ensures
        spec_be32_val((n >> 24) as u8, (n >> 16) as u8, (n >> 8) as u8, n as u8) == n,
{
    assert(((((n >> 24) as u8) as u32) << 24) | ((((n >> 16) as u8) as u32) << 16) | ((((n
        >> 8) as u8) as u32) << 8) | ((n as u8) as u32) == n) by (bit_vector);
}

/// Assembling four bytes into a 32-bit integer and splitting it again gives
/// back the same bytes.
pub proof fn lemma_be32_bytes_round_trip(b0: u8, b1: u8, b2: u8, b3: u8)
    ensures
        spec_be32(spec_be32_val(b0, b1, b2, b3)) =~= seq![b0, b1, b2, b3],
{
    let n = spec_be32_val(b0, b1, b2, b3);
    assert((n >> 24) as u8 == b0 && (n >> 16) as u8 == b1 && (n >> 8) as u8 == b2 && n as u8
        == b3) by (bit_vector)
        requires
            n == (((b0 as u32) << 24) | ((b1 as u32) << 16) | ((b2 as u32) << 8) | (b3 as u32)),
    ;
}

/// The eight big-endian bytes of a 64-bit integer.
pub open spec fn spec_be64(n: u64) -> Seq<u8> {
    seq![
        (n >> 56) as u8,
        (n >> 48) as u8,
        (n >> 40) as u8,
        (n >> 32) as u8,
        (n >> 24) as u8,
        (n >> 16) as u8,
        (n >> 8) as u8,
        n as u8,
    ]
}

/// The 64-bit integer assembled from eight big-endian bytes.
pub open spec fn spec_be64_val(b: Seq<u8>, off: int) -> u64 {
    ((b[off] as u64) << 56) | ((b[off + 1] as u64) << 48) | ((b[off + 2] as u64) << 40) | ((b[off
        + 3] as u64) << 32) | ((b[off + 4] as u64) << 24) | ((b[off + 5] as u64) << 16) | ((b[off
        + 6] as u64) << 8) | (b[off + 7] as u64)
}

/// Splitting a 64-bit integer into big-endian bytes and reassembling them is
/// the identity.
pub proof fn lemma_be64_round_trip(n: u64)
    ensures
        spec_be64_val(spec_be64(n), 0) == n,
{
    assert(((((n >> 56) as u8) as u64) << 56) | ((((n >> 48) as u8) as u64) << 48) | ((((n
        >> 40) as u8) as u64) << 40) | ((((n >> 32) as u8) as u64) << 32) | ((((n
        >> 24) as u8) as u64) << 24) | ((((n >> 16) as u8) as u64) << 16) | ((((n
        >> 8) as u8) as u64) << 8) | ((n as u8) as u64) == n) by (bit_vector);
}

/// Append the eight big-endian bytes of a 64-bit integer.
pub fn push_be64(out: &mut Vec<u8>, n: u64)
    ensures
        final(out)@ =~= old(out)@ + spec_be64(n),
{
    out.push((n >> 56) as u8);
    out.push((n >> 48) as u8);
    out.push((n >> 40) as u8);
    out.push((n >> 32) as u8);
    out.push((n >> 24) as u8);
    out.push((n >> 16) as u8);
    out.push((n >> 8) as u8);
    out.push(n as u8);
}

/// Append the four big-endian bytes of a 32-bit integer.
pub fn push_be32(out: &mut Vec<u8>, n: u32)
    ensures
        final(out)@ =~= old(out)@ + spec_be32(n),
{
    out.push((n >> 24) as u8);
    out.push((n >> 16) as u8);
    out.push((n >> 8) as u8);
    out.push(n as u8);
}

/// Read the 64-bit big-endian integer at `off`.
pub fn read_be64(buf: &Vec<u8>, off: usize) -> (r: u64)
    requires
        off + 8 <= buf@.len(),
    ensures
        r == spec_be64_val(buf@, off as int),
{
    let n: usize = buf.len();
    proof {
        assert(off + 8 <= n);
    }
    ((buf[off] as u64) << 56) | ((buf[off + 1] as u64) << 48) | ((buf[off + 2] as u64) << 40) | ((
    buf[off + 3] as u64) << 32) | ((buf[off + 4] as u64) << 24) | ((buf[off + 5] as u64) << 16) | ((
    buf[off + 6] as u64) << 8) | (buf[off + 7] as u64)
}

/// The 32-bit integer assembled from four big-endian bytes at `off`.
pub open spec fn spec_be32_at(b: Seq<u8>, off: int) -> u32 {
    spec_be32_val(b[off], b[off + 1], b[off + 2], b[off + 3])
}

/// Read the 32-bit big-endian integer at `off`.
pub fn read_be32(buf: &Vec<u8>, off: usize) -> (r: u32)
    requires
        off + 4 <= buf@.len(),
    ensures
        r == spec_be32_at(buf@, off as int),
{
    let n: usize = buf.len();
    proof {
        assert(off + 4 <= n);
    }
    ((buf[off] as u32) << 24) | ((buf[off + 1] as u32) << 16) | ((buf[off + 2] as u32) << 8) | (
    buf[off + 3] as u32)
}

/// The encoded form of a frame: three leading bytes, the length, the route,
/// then the body.
pub open spec fn spec_encode(f: ChannelBuffer) -> Seq<u8> {
    seq![f.head.ver, f.head.ctrl, f.head.action] + spec_be32(f.head.len) + seq![
        0u8,
        f.head.ver,
        f.head.ctrl,
        f.head.action,
    ] + f.body@
}

/// Encode a well-formed frame; infallible.
pub fn encode(f: &ChannelBuffer) -> (r: Vec<u8>)
    requires
        spec_wf_frame(*f),
    ensures
        r@ =~= spec_encode(*f),
        r@.len() == FRAME_HEADER_LENGTH + f.head.len,
{
    let mut out: Vec<u8> = Vec::new();
    out.push(f.head.ver);
    out.push(f.head.ctrl);
    out.push(f.head.action);
    let len: u32 = f.head.len;
    out.push((len >> 24) as u8);
    out.push((len >> 16) as u8);
    out.push((len >> 8) as u8);
    out.push(len as u8);
    out.push(0);
    out.push(f.head.ver);
    out.push(f.head.ctrl);
    out.push(f.head.action);
    let mut i: usize = 0;
    while i < f.body.len()
        invariant
            i <= f.body@.len(),
            out@.len() == 11 + i,
            out@ =~= spec_encode(*f).subrange(0, 11 + i as int),
            spec_wf_frame(*f),
        decreases f.body@.len() - i,
    {
        out.push(f.body[i]);
        i = i + 1;
    }
    assert(out@ =~= spec_encode(*f));
    out
}

/// What a decoder found at the front of a buffer.
#[derive(Debug)]
pub enum DecodeResult {
    /// A whole frame and the number of bytes it occupied.
    Frame(ChannelBuffer, usize),
    /// Not enough bytes yet; keep reading.
    Incomplete,
    /// The declared body length exceeds the maximum; the stream is broken.
    Oversized,
}

/// The declared body length at the front of a buffer holding at least a
/// whole header.
pub open spec fn spec_declared_len(b: Seq<u8>) -> u32 {
    spec_be32_val(b[3], b[4], b[5], b[6])
}

/// Decode the frame at the front of `buf`.  Returns the frame and its
/// encoded size when the buffer holds a whole frame, asks for more input
/// when bytes are missing, and fails on a length above the maximum.
pub fn decode(buf: &Vec<u8>) -> (r: DecodeResult)
    ensures
        match r {
            DecodeResult::Frame(f, consumed) => {
                &&& buf@.len() >= FRAME_HEADER_LENGTH
                &&& spec_declared_len(buf@) <= MAX_FRAME_LENGTH
                &&& buf@.len() >= FRAME_HEADER_LENGTH + spec_declared_len(buf@)
                &&& f.head.ver == buf@[0]
                &&& f.head.ctrl == buf@[1]
                &&& f.head.action == buf@[2]
                &&& f.head.len == spec_declared_len(buf@)
                &&& f.body@ =~= buf@.subrange(11, 11 + spec_declared_len(buf@) as int)
                &&& consumed == FRAME_HEADER_LENGTH + spec_declared_len(buf@)
                &&& spec_wf_frame(f)
            },
            DecodeResult::Incomplete => {
                buf@.len() < FRAME_HEADER_LENGTH || (spec_declared_len(buf@)
                    <= MAX_FRAME_LENGTH && buf@.len() < FRAME_HEADER_LENGTH
                    + spec_declared_len(buf@))
            },
            DecodeResult::Oversized => {
                &&& buf@.len() >= FRAME_HEADER_LENGTH
                &&& spec_declared_len(buf@) > MAX_FRAME_LENGTH
            },
        },
{
    if buf.len() < FRAME_HEADER_LENGTH {
        return DecodeResult::Incomplete;
    }
    let len: u32 = ((buf[3] as u32) << 24) | ((buf[4] as u32) << 16) | ((buf[5] as u32) << 8)
        | (buf[6] as u32);
    if len > MAX_FRAME_LENGTH {
        return DecodeResult::Oversized;
    }
    let total: usize = FRAME_HEADER_LENGTH + len as usize;
    if buf.len() < total {
        return DecodeResult::Incomplete;
    }
    let mut body: Vec<u8> = Vec::new();
    let mut i: usize = 0;
    while i < len as usize
        invariant
            i <= len,
            len <= MAX_FRAME_LENGTH,
            buf@.len() >= 11 + len,
            body@ =~= buf@.subrange(11, 11 + i as int),
        decreases len as int - i as int,
    {
        body.push(buf[11 + i]);
        i = i + 1;
    }
    let head = Head { ver: buf[0], ctrl: buf[1], action: buf[2], len };
    DecodeResult::Frame(ChannelBuffer { head, body }, total)
}

/// Codec round trip: the bytes of a well-formed frame decode to exactly the
/// frame's own fields.  The declared length read back from the bytes is the
/// frame's length, the three leading bytes are the frame's routing bytes,
/// and the remainder is the frame's body.
pub proof fn lemma_codec_round_trip(f: ChannelBuffer)
    requires
        spec_wf_frame(f),
    ensures
        spec_encode(f).len() == FRAME_HEADER_LENGTH + f.head.len,
        spec_encode(f)[0] == f.head.ver,
        spec_encode(f)[1] == f.head.ctrl,
        spec_encode(f)[2] == f.head.action,
        spec_declared_len(spec_encode(f)) == f.head.len,
        spec_encode(f).subrange(11, spec_encode(f).len() as int) =~= f.body@,
{
    let b = spec_encode(f);
    assert(b[3] == (f.head.len >> 24) as u8);
    assert(b[4] == (f.head.len >> 16) as u8);
    assert(b[5] == (f.head.len >> 8) as u8);
    assert(b[6] == f.head.len as u8);
    lemma_be32_round_trip(f.head.len);
    assert(b.subrange(11, b.len() as int) =~= f.body@);
}

} // verus!

//! Header synchronisation: wire format, the header chain, shared sync state
//! and the handler that requests and imports header ranges.
//!
//! Headers travel as length-prefixed fixed-size records.  Imports append to
//! a single header-chain log owned behind a mutable borrow, so the applied
//! headers form one totally ordered sequence no matter which peer supplied
//! them.

use vstd::prelude::*;
use crate::codec::{
    spec_be32, spec_be32_at, spec_be64, spec_be64_val, push_be32, push_be64, read_be32, read_be64,
    ChannelBuffer, Head, spec_wf_frame, VERSION_V0, MODULE_EXTERNAL, SYNC_ACTION_BLOCKSHEADERSREQ,
};
use crate::node::{spec_fnv, Node, Mode};
use crate::registry::{Registry, spec_contains_hash};
use crate::unity::{Header, SealType};

verus! {

/// Capacity of the cache of recently seen block hashes; a quarter of it
/// bounds how far ahead of the synced height a peer may be asked.
pub const MAX_CACHED_BLOCK_HASHED: u64 = 128;

/// Bytes of one header on the wire: number, timestamp, the two halves of
/// the difficulty, and the seal byte.
pub const HEADER_WIRE_LENGTH: u32 = 33;

/// The wire byte of a seal type.
pub open spec fn spec_seal_byte(s: SealType) -> u8 {
    match s {
        SealType::PoW => 0u8,
        SealType::PoS => 1u8,
    }
}

/// The wire form of one header: number, timestamp, difficulty high and low
/// halves, all big-endian, then the seal byte.
pub open spec fn spec_encode_header(h: Header) -> Seq<u8> {
    spec_be64(h.number) + spec_be64(h.timestamp) + spec_be64((h.difficulty >> 64) as u64)
        + spec_be64(h.difficulty as u64) + seq![spec_seal_byte(h.seal_type)]
}

/// The header read from 33 bytes at `off`, or nothing on an unknown seal
/// byte.
pub open spec fn spec_parse_header_at(b: Seq<u8>, off: int) -> Option<Header> {
    let seal = b[off + 32];
    if seal == 0 || seal == 1 {
        Some(
            Header {
                number: spec_be64_val(b, off),
                timestamp: spec_be64_val(b, off + 8),
                difficulty: (((spec_be64_val(b, off + 16) as u128) << 64) | (spec_be64_val(
                    b,
                    off + 24,
                ) as u128)),
                seal_type: if seal == 0 {
                    SealType::PoW
                } else {
                    SealType::PoS
                },
            },
        )
    } else {
        None
    }
}

/// The identity of a header: the hash of its wire form.
pub open spec fn spec_header_hash(h: Header) -> u64 {
    spec_fnv(spec_encode_header(h))
}

/// Encode one header into its 33 wire bytes.
pub fn encode_header(h: &Header) -> (r: Vec<u8>)
    ensures
        r@ =~= spec_encode_header(*h),
        r@.len() == HEADER_WIRE_LENGTH,
{
    let mut out: Vec<u8> = Vec::new();
    push_be64(&mut out, h.number);
    push_be64(&mut out, h.timestamp);
    push_be64(&mut out, (h.difficulty >> 64) as u64);
    push_be64(&mut out, h.difficulty as u64);
    let seal: u8 = match h.seal_type {
        SealType::PoW => 0,
        SealType::PoS => 1,
    };
    out.push(seal);
    out
}

/// A header's wire form parses back to exactly the header.
pub proof fn lemma_header_round_trip(h: Header)
    ensures
        spec_parse_header_at(spec_encode_header(h), 0) == Some(h),
{
    let b = spec_encode_header(h);
    let hi = (h.difficulty >> 64) as u64;
    let lo = h.difficulty as u64;
    assert(b.subrange(0, 8) =~= spec_be64(h.number));
    assert(b.subrange(8, 16) =~= spec_be64(h.timestamp));
    assert(b.subrange(16, 24) =~= spec_be64(hi));
    assert(b.subrange(24, 32) =~= spec_be64(lo));
    crate::codec::lemma_be64_round_trip(h.number);
    crate::codec::lemma_be64_round_trip(h.timestamp);
    crate::codec::lemma_be64_round_trip(hi);
    crate::codec::lemma_be64_round_trip(lo);
    assert(spec_be64_val(b, 0) == spec_be64_val(spec_be64(h.number), 0));
    assert(spec_be64_val(b, 8) == spec_be64_val(spec_be64(h.timestamp), 0));
    assert(spec_be64_val(b, 16) == spec_be64_val(spec_be64(hi), 0));
    assert(spec_be64_val(b, 24) == spec_be64_val(spec_be64(lo), 0));
    let d = h.difficulty;
    assert(((((d >> 64) as u64) as u128) << 64) | ((d as u64) as u128) == d) by (bit_vector);
}

/// The headers parsed from `pos` to the end of the buffer: a run of
/// length-prefixed 33-byte records, or nothing on any malformed byte.
pub open spec fn spec_parse_headers_from(b: Seq<u8>, pos: int) -> Option<Seq<Header>>
    decreases b.len() - pos,
{
    if pos >= b.len() {
        Some(Seq::empty())
    } else if pos + 4 > b.len() {
        None
    } else if spec_be32_at(b, pos) != HEADER_WIRE_LENGTH || pos + 37 > b.len() {
        None
    } else {
        match spec_parse_header_at(b, pos + 4) {
            None => None,
            Some(h) => match spec_parse_headers_from(b, pos + 37) {
                None => None,
                Some(rest) => Some(seq![h] + rest),
            },
        }
    }
}

/// `Some(acc + rest)` when `rest` parsed, nothing otherwise.
pub open spec fn spec_prepend(acc: Seq<Header>, rest: Option<Seq<Header>>) -> Option<
    Seq<Header>,
> {
    match rest {
        None => None,
        Some(r) => Some(acc + r),
    }
}

/// The wire form of a run of headers, each length-prefixed.
pub open spec fn spec_encode_headers(hs: Seq<Header>) -> Seq<u8>
    decreases hs.len(),
{
    if hs.len() == 0 {
        Seq::empty()
    } else {
        spec_encode_headers(hs.drop_last()) + spec_be32(HEADER_WIRE_LENGTH) + spec_encode_header(
            hs.last(),
        )
    }
}

/// Encode a run of headers for a header-response body.
pub fn encode_headers(hs: &Vec<Header>) -> (r: Vec<u8>)
    ensures
        r@ =~= spec_encode_headers(hs@),
{
    let mut out: Vec<u8> = Vec::new();
    let mut i: usize = 0;
    proof {
        assert(hs@.subrange(0, 0) =~= Seq::<Header>::empty());
    }
    while i < hs.len()
        invariant
            i <= hs@.len(),
            out@ =~= spec_encode_headers(hs@.subrange(0, i as int)),
        decreases hs@.len() - i,
    {
        proof {
            assert(hs@.subrange(0, i + 1).drop_last() =~= hs@.subrange(0, i as int));
            assert(hs@.subrange(0, i + 1).last() == hs@[i as int]);
        }
        push_be32(&mut out, HEADER_WIRE_LENGTH);
        let enc = encode_header(&hs[i]);
        let mut j: usize = 0;
        while j < enc.len()
            invariant
                j <= enc@.len(),
                out@ =~= spec_encode_headers(hs@.subrange(0, i as int)) + spec_be32(
                    HEADER_WIRE_LENGTH,
                ) + enc@.subrange(0, j as int),
            decreases enc@.len() - j,
        {
            out.push(enc[j]);
            j = j + 1;
        }
        proof {
            assert(enc@.subrange(0, enc@.len() as int) =~= enc@);
        }
        i = i + 1;
    }
    proof {
        assert(hs@.subrange(0, hs@.len() as int) =~= hs@);
    }
    out
}

/// Parse a header-response body.  Returns the parsed run exactly when the
/// whole body is a well-formed run of length-prefixed headers.
pub fn decode_headers(body: &Vec<u8>) -> (r: Option<Vec<Header>>)
    ensures
        match r {
            Some(v) => spec_parse_headers_from(body@, 0) == Some(v@),
            None => spec_parse_headers_from(body@, 0) is None,
        },
{
    let mut out: Vec<Header> = Vec::new();
    let mut pos: usize = 0;
    proof {
        assert(out@ + spec_parse_headers_from(body@, 0)->0 =~= spec_parse_headers_from(
            body@,
            0,
        )->0) by {
            if spec_parse_headers_from(body@, 0) is Some {
            }
        }
    }
    while pos < body.len()
        invariant
            pos <= body@.len(),
            spec_prepend(out@, spec_parse_headers_from(body@, pos as int))
                == spec_parse_headers_from(body@, 0),
        decreases body@.len() - pos,
    {
        if body.len() - pos < 4 {
            return None;
        }
        let l: u32 = read_be32(body, pos);
        if l != HEADER_WIRE_LENGTH {
            return None;
        }
        if body.len() - pos < 37 {
            return None;
        }
        let seal_byte: u8 = body[pos + 36];
        if seal_byte > 1 {
            proof {
                assert(spec_parse_header_at(body@, pos + 4) is None);
            }
            return None;
        }
        let number: u64 = read_be64(body, pos + 4);
        let timestamp: u64 = read_be64(body, pos + 12);
        let hi: u64 = read_be64(body, pos + 20);
        let lo: u64 = read_be64(body, pos + 28);
        let difficulty: u128 = (((hi as u128)) << 64) | (lo as u128);
        let seal_type = if seal_byte == 0 {
            SealType::PoW
        } else {
            SealType::PoS
        };
        let h = Header { number, timestamp, difficulty, seal_type };
        proof {
            assert(spec_parse_header_at(body@, pos + 4) == Some(h));
            let rest = spec_parse_headers_from(body@, pos + 37);
            assert(spec_parse_headers_from(body@, pos as int) == spec_prepend(seq![h], rest));
            if rest is Some {
                assert((out@ + seq![h]) + rest->0 =~= out@ + (seq![h] + rest->0));
            }
        }
        out.push(h);
        pos = pos + 37;
    }
    proof {
        assert(spec_parse_headers_from(body@, pos as int) == Some(Seq::<Header>::empty()));
        assert(out@ + Seq::<Header>::empty() =~= out@);
    }
    Some(out)
}

// ------------------------------------------------------------------
// Header chain and shared sync state
// ------------------------------------------------------------------

/// Whether the chain log already holds a header with the same identity.
pub open spec fn spec_chain_has(log: Seq<Header>, h: Header) -> bool {
    exists|i: int| 0 <= i < log.len() && spec_header_hash(#[trigger] log[i]) == spec_header_hash(h)
}

/// One import step: append the header and move the synced height to its
/// number, unless its identity is already in the chain.
pub open spec fn spec_import_step(log: Seq<Header>, synced: u64, h: Header) -> (Seq<Header>, u64) {
    if spec_chain_has(log, h) {
        (log, synced)
    } else {
        (log.push(h), h.number)
    }
}

/// The chain log and synced height after importing a run of headers in
/// order.
pub open spec fn spec_import(log: Seq<Header>, synced: u64, hs: Seq<Header>) -> (Seq<Header>, u64)
    decreases hs.len(),
{
    if hs.len() == 0 {
        (log, synced)
    } else {
        let stepped = spec_import_step(log, synced, hs[0]);
        spec_import(stepped.0, stepped.1, hs.skip(1))
    }
}

/// Importing only ever appends: the old log is a prefix of the new one, and
/// everything appended is drawn from the imported run.  Together with the
/// exact import contract this says the applied headers form one totally
/// ordered sequence, whatever their source.
pub proof fn lemma_import_appends(log: Seq<Header>, synced: u64, hs: Seq<Header>)
    ensures
        spec_import(log, synced, hs).0.len() >= log.len(),
        spec_import(log, synced, hs).0.subrange(0, log.len() as int) =~= log,
        forall|k: int|
            log.len() <= k < spec_import(log, synced, hs).0.len() ==> hs.contains(
                #[trigger] spec_import(log, synced, hs).0[k],
            ),
    decreases hs.len(),
{
    if hs.len() == 0 {
    } else {
        let stepped = spec_import_step(log, synced, hs[0]);
        lemma_import_appends(stepped.0, stepped.1, hs.skip(1));
        let out = spec_import(log, synced, hs);
        assert(stepped.0.subrange(0, log.len() as int) =~= log);
        assert forall|k: int| log.len() <= k < out.0.len() implies hs.contains(
            #[trigger] out.0[k],
        ) by {
            if k < stepped.0.len() {
                assert(out.0[k] == stepped.0[k]);
                assert(stepped.0[k] == hs[0]);
                assert(hs[0] == hs[0]);
            } else {
                assert(hs.skip(1).contains(out.0[k]));
                let j = choose|j: int| 0 <= j < hs.skip(1).len() && hs.skip(1)[j] == out.0[k];
                assert(hs[j + 1] == out.0[k]);
            }
        }
    }
}

/// The header chain: the totally ordered log of applied headers and the
/// identities they carry.
pub struct HeaderChain {
    log: Vec<Header>,
    hashes: Vec<u64>,
}

impl HeaderChain {
    /// The applied headers, in application order.
    pub closed spec fn spec_log(self) -> Seq<Header> {
        self.log@
    }

    /// One identity per applied header, in the same order.
    pub closed spec fn wf(self) -> bool {
        &&& self.hashes@.len() == self.log@.len()
        &&& (forall|i: int|
            0 <= i < self.log@.len() ==> self.hashes@[i] == spec_header_hash(
                #[trigger] self.log@[i],
            ))
    }

    /// An empty chain.
    pub fn new() -> (r: HeaderChain)
        ensures
            r.wf(),
            r.spec_log().len() == 0,
    {
        HeaderChain { log: Vec::new(), hashes: Vec::new() }
    }

    /// The identity of a header: the hash of its wire form.
    pub fn header_hash(h: &Header) -> (r: u64)
        ensures
            r == spec_header_hash(*h),
    {
        let enc = encode_header(h);
        crate::node::calculate_hash(&enc)
    }

    /// Whether a header with this identity was applied already.
    pub fn status_in_chain(&self, h: &Header) -> (r: bool)
        requires
            self.wf(),
        ensures
            r == spec_chain_has(self.spec_log(), *h),
    {
        let target = Self::header_hash(h);
        let mut i: usize = 0;
        while i < self.hashes.len()
            invariant
                self.wf(),
                i <= self.hashes@.len(),
                target == spec_header_hash(*h),
                forall|j: int|
                    0 <= j < i ==> spec_header_hash(#[trigger] self.log@[j]) != spec_header_hash(
                        *h,
                    ),
            decreases self.hashes@.len() - i,
        {
            if self.hashes[i] == target {
                proof {
                    assert(spec_header_hash(self.log@[i as int]) == spec_header_hash(*h));
                }
                return true;
            }
            i = i + 1;
        }
        false
    }

    /// How many headers the log holds.
    pub fn length(&self) -> (r: usize)
        ensures
            r == self.spec_log().len(),
    {
        self.log.len()
    }

    /// A copy of the applied header at a position of the log.
    pub fn get(&self, i: usize) -> (r: Option<Header>)
        ensures
            match r {
                Some(h) => i < self.spec_log().len() && h == self.spec_log()[i as int],
                None => i >= self.spec_log().len(),
            },
    {
        if i < self.log.len() {
            Some(self.log[i])
        } else {
            None
        }
    }

    /// Apply a header to the chain.
    fn apply(&mut self, h: &Header)
        requires
            old(self).wf(),
        ensures
            final(self).wf(),
            final(self).spec_log() =~= old(self).spec_log().push(*h),
    {
        let hash = Self::header_hash(h);
        self.log.push(*h);
        self.hashes.push(hash);
    }
}

/// Shared mutable state of the sync layer: the synced height, the upper end
/// of the last request, and the header chain.
pub struct SyncStorage {
    synced_block_number: u64,
    requested_block_number_last_time: u64,
    chain: HeaderChain,
}

impl SyncStorage {
    /// The highest block number known good locally.
    pub closed spec fn spec_synced(self) -> u64 {
        self.synced_block_number
    }

    /// The upper end of the most recent header request.
    pub closed spec fn spec_requested_last(self) -> u64 {
        self.requested_block_number_last_time
    }

    /// The applied header log.
    pub closed spec fn spec_chain_log(self) -> Seq<Header> {
        self.chain.spec_log()
    }

    pub closed spec fn wf(self) -> bool {
        self.chain.wf()
    }

    /// Fresh sync state: nothing synced, nothing requested, empty chain.
    pub fn new() -> (r: SyncStorage)
        ensures
            r.wf(),
            r.spec_synced() == 0,
            r.spec_requested_last() == 0,
            r.spec_chain_log().len() == 0,
    {
        SyncStorage {
            synced_block_number: 0,
            requested_block_number_last_time: 0,
            chain: HeaderChain::new(),
        }
    }

    pub fn get_synced_block_number(&self) -> (r: u64)
        ensures
            r == self.spec_synced(),
    {
        self.synced_block_number
    }

    pub fn set_synced_block_number(&mut self, n: u64)
        ensures
            final(self).spec_synced() == n,
            final(self).spec_requested_last() == old(self).spec_requested_last(),
            final(self).spec_chain_log() =~= old(self).spec_chain_log(),
            final(self).wf() == old(self).wf(),
    {
        self.synced_block_number = n;
    }

    /// How many headers the chain log holds.
    pub fn chain_length(&self) -> (r: usize)
        ensures
            r == self.spec_chain_log().len(),
    {
        self.chain.length()
    }

    /// A copy of the applied header at a position of the chain log.
    pub fn get_chain_header(&self, i: usize) -> (r: Option<Header>)
        ensures
            match r {
                Some(h) => i < self.spec_chain_log().len() && h == self.spec_chain_log()[i as int],
                None => i >= self.spec_chain_log().len(),
            },
    {
        self.chain.get(i)
    }

    pub fn get_requested_block_number_last_time(&self) -> (r: u64)
        ensures
            r == self.spec_requested_last(),
    {
        self.requested_block_number_last_time
    }

    pub fn set_requested_block_number_last_time(&mut self, n: u64)
        ensures
            final(self).spec_requested_last() == n,
            final(self).spec_synced() == old(self).spec_synced(),
            final(self).spec_chain_log() =~= old(self).spec_chain_log(),
            final(self).wf() == old(self).wf(),
    {
        self.requested_block_number_last_time = n;
    }
}


// ------------------------------------------------------------------
// The header-sync handler
// ------------------------------------------------------------------

/// How far a backward-mode request steps down the chain.
pub const BACKWARD_SYNC_STEP: u64 = 128;

/// Sum of two counters, saturating at the top of the range.
pub open spec fn spec_sat_add64(a: u64, b: u64) -> u64 {
    if a + b > u64::MAX {
        u64::MAX
    } else {
        (a + b) as u64
    }
}

fn sat_add64(a: u64, b: u64) -> (r: u64)
    ensures
        r == spec_sat_add64(a, b),
{
    if a <= u64::MAX - b {
        a + b
    } else {
        u64::MAX
    }
}

/// Only boot peers are asked while syncing from boot nodes alone.
pub open spec fn spec_boot_blocked(sync_from_boot_nodes_only: bool, n: Node) -> bool {
    sync_from_boot_nodes_only && !n.is_from_boot_list
}

/// Rate limit: a peer is asked at most once per 50 ms.
pub open spec fn spec_rate_limited(n: Node, now_ms: u64) -> bool {
    spec_sat_add64(n.last_request_timestamp, 50) > now_ms
}

/// The requested height after seeding an untouched counter from the synced
/// height.
pub open spec fn spec_seeded_requested(n: Node, synced: u64) -> u64 {
    if n.requested_block_num == 0 {
        spec_sat_add64(synced, 1)
    } else {
        n.requested_block_num
    }
}

/// Flow control: no more requests while a quarter of the hash cache is
/// already outstanding beyond the synced height.
pub open spec fn spec_flow_blocked(requested: u64, synced: u64) -> bool {
    synced + MAX_CACHED_BLOCK_HASHED / 4 <= requested
}

/// The requested height after the normal-mode catch-up bump.
pub open spec fn spec_bumped_requested(mode: Mode, requested: u64, synced: u64, from: u64) -> u64 {
    if from == 0 && mode == Mode::NORMAL && requested + 128 < synced {
        spec_sat_add64(synced, 128)
    } else {
        requested
    }
}

/// The starting block of the request: the caller's choice when nonzero,
/// otherwise derived from the requested height by sync mode.  Normal and
/// backward starts are floored at block one; the fast modes derive no
/// start here.
pub open spec fn spec_from_value(mode: Mode, requested: u64, from: u64) -> u64 {
    if from != 0 {
        from
    } else {
        match mode {
            Mode::NORMAL => if requested > 2 {
                (requested - 1) as u64
            } else {
                1u64
            },
            Mode::BACKWARD => if requested > BACKWARD_SYNC_STEP {
                (requested - BACKWARD_SYNC_STEP) as u64
            } else {
                1u64
            },
            Mode::FORWARD => spec_sat_add64(requested, 1),
            Mode::LIGHTNING => 0u64,
            Mode::THUNDER => 0u64,
        }
    }
}

/// Whether a header request goes out for this peer, now, and start choice.
pub open spec fn spec_sends(
    sync_from_boot_nodes_only: bool,
    n: Node,
    now_ms: u64,
    synced: u64,
    from: u64,
) -> bool {
    let req1 = spec_seeded_requested(n, synced);
    let req2 = spec_bumped_requested(n.mode, req1, synced, from);
    &&& !spec_boot_blocked(sync_from_boot_nodes_only, n)
    &&& !spec_rate_limited(n, now_ms)
    &&& !spec_flow_blocked(req1, synced)
    &&& n.target_total_difficulty >= n.current_total_difficulty
    &&& spec_from_value(n.mode, req2, from) != n.last_request_num
}

/// Sync rate limit: whenever a header request goes out, at least 50 ms have
/// passed since the peer's previous request stamp, and the requested start
/// differs from the previous one.  A repeated start is deduplicated and
/// nothing goes out, so successive requests to one peer are always 50 ms
/// apart.
pub proof fn lemma_sync_rate_limit(
    sync_from_boot_nodes_only: bool,
    n: Node,
    now_ms: u64,
    synced: u64,
    from: u64,
)
    requires
        spec_sends(sync_from_boot_nodes_only, n, now_ms, synced, from),
        n.last_request_timestamp <= u64::MAX - 50,
    ensures
        now_ms >= n.last_request_timestamp + 50,
        spec_from_value(
            n.mode,
            spec_bumped_requested(n.mode, spec_seeded_requested(n, synced), synced, from),
            from,
        ) != n.last_request_num,
{
}

/// The frame of a header-range request: `from` and `size`, big-endian, under
/// the sync action for header requests.
pub fn build_blocks_headers_req(from: u64, size: u32) -> (r: ChannelBuffer)
    ensures
        r.head.ver == VERSION_V0,
        r.head.ctrl == MODULE_EXTERNAL,
        r.head.action == SYNC_ACTION_BLOCKSHEADERSREQ,
        r.head.len == 12,
        r.body@ =~= spec_be64(from) + spec_be32(size),
        spec_wf_frame(r),
{
    let mut body: Vec<u8> = Vec::new();
    push_be64(&mut body, from);
    push_be32(&mut body, size);
    ChannelBuffer {
        head: Head {
            ver: VERSION_V0,
            ctrl: MODULE_EXTERNAL,
            action: SYNC_ACTION_BLOCKSHEADERSREQ,
            len: 12,
        },
        body,
    }
}

/// The headers of a run that are not behind the synced height, in order.
pub open spec fn spec_kept_headers(hs: Seq<Header>, synced: u64) -> Seq<Header>
    decreases hs.len(),
{
    if hs.len() == 0 {
        Seq::empty()
    } else {
        spec_kept_headers(hs.drop_last(), synced) + if hs.last().number >= synced {
            seq![hs.last()]
        } else {
            Seq::empty()
        }
    }
}

/// The peer's requested height after seeing a run of headers: the largest
/// number seen, if it beats the old value.
pub open spec fn spec_max_requested(req0: u64, hs: Seq<Header>) -> u64
    decreases hs.len(),
{
    if hs.len() == 0 {
        req0
    } else {
        let m = spec_max_requested(req0, hs.drop_last());
        if hs.last().number > m {
            hs.last().number
        } else {
            m
        }
    }
}

/// Handles request and response frames for ranges of block headers.
pub struct BlockHeadersHandler;

impl BlockHeadersHandler {
    /// Ask a peer for a range of headers starting at `from` (or at a start
    /// derived from the peer's sync mode when `from` is zero), subject to
    /// the boot-list policy, the per-peer rate limit, flow control and
    /// duplicate suppression.  When the request goes out, the peer's
    /// request stamps and the shared request mark move exactly as decided.
    pub fn get_headers_from_node(
        storage: &mut SyncStorage,
        registry: &mut Registry,
        sync_from_boot_nodes_only: bool,
        now_ms: u64,
        node: &mut Node,
        from: u64,
        size: u64,
    )
        requires
            old(storage).wf(),
            old(registry).wf(),
        ensures
            final(storage).wf(),
            final(registry).wf(),
            final(registry).spec_max_peers() == old(registry).spec_max_peers(),
            final(storage).spec_synced() == old(storage).spec_synced(),
            final(storage).spec_chain_log() =~= old(storage).spec_chain_log(),
            (spec_boot_blocked(sync_from_boot_nodes_only, *old(node)) || spec_rate_limited(
                *old(node),
                now_ms,
            )) ==> *final(node) == *old(node) && final(storage).spec_requested_last() == old(storage).spec_requested_last() && final(registry).spec_entries() =~= old(registry).spec_entries(),
            !spec_sends(sync_from_boot_nodes_only, *old(node), now_ms, old(storage).spec_synced(),
                from) ==> final(storage).spec_requested_last() == old(storage).spec_requested_last() && final(registry).spec_entries() =~= old(registry).spec_entries() && final(node).last_request_num == old(node).last_request_num
                && final(node).last_request_timestamp == old(node).last_request_timestamp,
            (!spec_boot_blocked(sync_from_boot_nodes_only, *old(node)) && !spec_rate_limited(
                *old(node),
                now_ms,
            ) && !spec_sends(sync_from_boot_nodes_only, *old(node), now_ms,
                old(storage).spec_synced(), from)) ==> {
                let req1 = spec_seeded_requested(*old(node), old(storage).spec_synced());
                let req2 = spec_bumped_requested(old(node).mode, req1, old(storage).spec_synced(),
                    from);
                let blocked_early = spec_flow_blocked(req1, old(storage).spec_synced()) || old(node).target_total_difficulty < old(node).current_total_difficulty;
                *final(node) == (Node {
                    requested_block_num: if blocked_early {
                        req1
                    } else {
                        req2
                    },
                    ..*old(node)
                })
            },
            spec_sends(sync_from_boot_nodes_only, *old(node), now_ms, old(storage).spec_synced(),
                from) ==> (*final(node) == (Node {
                requested_block_num: final(node).requested_block_num,
                last_request_num: final(node).last_request_num,
                last_request_timestamp: final(node).last_request_timestamp,
                mode: final(node).mode,
                ..*old(node)
            })),
            spec_sends(sync_from_boot_nodes_only, *old(node), now_ms, old(storage).spec_synced(),
                from) ==> {
                let req1 = spec_seeded_requested(*old(node), old(storage).spec_synced());
                let req2 = spec_bumped_requested(old(node).mode, req1, old(storage).spec_synced(),
                    from);
                let f = spec_from_value(old(node).mode, req2, from);
                &&& final(node).requested_block_num == req2
                &&& final(node).last_request_num == f
                &&& final(node).last_request_timestamp == now_ms
                &&& f != old(node).last_request_num
                &&& now_ms >= spec_sat_add64(old(node).last_request_timestamp, 50)
                &&& final(storage).spec_requested_last() == spec_sat_add64(f, size)
                // whenever the registry still holds the peer after the
                // request went out, it holds exactly the stamped record
                &&& (spec_contains_hash(final(registry).spec_entries(), old(node).node_hash)
                    ==> exists|i: int|
                    0 <= i < final(registry).spec_entries().len() && (#[trigger] final(registry).spec_entries()[i]).node == *final(node))
            },
    {
        if sync_from_boot_nodes_only && !node.is_from_boot_list {
            return ;
        }
        let stamp_guard: u64 = sat_add64(node.last_request_timestamp, 50);
        if stamp_guard > now_ms {
            return ;
        }
        let synced: u64 = storage.get_synced_block_number();
        if node.requested_block_num == 0 {
            node.requested_block_num = sat_add64(synced, 1);
        }
        if node.requested_block_num >= synced && node.requested_block_num - synced
            >= MAX_CACHED_BLOCK_HASHED / 4 {
            return ;
        }
        if node.target_total_difficulty < node.current_total_difficulty {
            return ;
        }
        let mut from_block: u64 = from;
        if from_block == 0 {
            match node.mode {
                Mode::NORMAL => {
                    if synced > 128 && node.requested_block_num < synced - 128 {
                        node.requested_block_num = sat_add64(synced, 128);
                    }
                    let self_num: u64 = node.requested_block_num;
                    from_block = if self_num > 2 {
                        self_num - 1
                    } else {
                        1
                    };
                },
                Mode::BACKWARD => {
                    let self_num: u64 = node.requested_block_num;
                    from_block = if self_num > BACKWARD_SYNC_STEP {
                        self_num - BACKWARD_SYNC_STEP
                    } else {
                        1
                    };
                },
                Mode::FORWARD => {
                    let self_num: u64 = node.requested_block_num;
                    from_block = sat_add64(self_num, 1);
                },
                Mode::LIGHTNING => {},
                Mode::THUNDER => {},
            }
        }
        if node.last_request_num == from_block {
            return ;
        }
        node.last_request_timestamp = now_ms;
        node.last_request_num = from_block;
        storage.set_requested_block_number_last_time(sat_add64(from_block, size));
        Self::send_blocks_headers_req(registry, node.node_hash, from_block, size as u32);
        let ghost pre = *registry;
        let ghost prenode = *node;
        registry.update_node(node.node_hash, node);
        proof {
            if spec_contains_hash(pre.spec_entries(), node.node_hash) {
                let i = choose|i: int|
                    0 <= i < pre.spec_entries().len() && (
                    #[trigger] pre.spec_entries()[i]).node.node_hash == node.node_hash && *node
                        == (Node { mode: pre.spec_entries()[i].node.mode, ..prenode })
                        && registry.spec_entries() =~= pre.spec_entries().update(
                        i,
                        (crate::registry::PeerEntry {
                            node: (Node { node_hash: node.node_hash, ..*node }),
                            tx: pre.spec_entries()[i].tx,
                        }),
                    );
                assert((registry.spec_entries()[i]).node == *node);
            }
        }
    }

    /// Queue a header-range request on the peer's write channel.
    fn send_blocks_headers_req(registry: &mut Registry, node_hash: u64, from: u64, size: u32)
        requires
            old(registry).wf(),
        ensures
            final(registry).wf(),
            final(registry).spec_max_peers() == old(registry).spec_max_peers(),
    {
        let req = build_blocks_headers_req(from, size);
        registry.send(node_hash, req);
    }

    /// A header-range request needs no reply from this side.
    pub fn handle_blocks_headers_req(node: &mut Node, req: ChannelBuffer)
        ensures
            *final(node) == *old(node),
    {
    }

    /// Import a run of headers: each one whose identity is not yet in the
    /// chain is applied and moves the synced height to its number.  The
    /// chain log is only ever extended, so applied headers form one totally
    /// ordered sequence whatever peer supplied them.
    pub fn import_block_header(storage: &mut SyncStorage, headers: &Vec<Header>)
        requires
            old(storage).wf(),
        ensures
            final(storage).wf(),
            final(storage).spec_requested_last() == old(storage).spec_requested_last(),
            final(storage).spec_chain_log() =~= spec_import(
                old(storage).spec_chain_log(),
                old(storage).spec_synced(),
                headers@,
            ).0,
            final(storage).spec_synced() == spec_import(
                old(storage).spec_chain_log(),
                old(storage).spec_synced(),
                headers@,
            ).1,
            final(storage).spec_chain_log().subrange(0, old(storage).spec_chain_log().len() as int)
                =~= old(storage).spec_chain_log(),
    {
        let mut i: usize = 0;
        proof {
            assert(headers@.skip(0) =~= headers@);
        }
        while i < headers.len()
            invariant
                storage.wf(),
                i <= headers@.len(),
                storage.spec_requested_last() == old(storage).spec_requested_last(),
                spec_import(storage.spec_chain_log(), storage.spec_synced(), headers@.skip(i as int)).0
                    =~= spec_import(
                    old(storage).spec_chain_log(),
                    old(storage).spec_synced(),
                    headers@,
                ).0,
                spec_import(storage.spec_chain_log(), storage.spec_synced(), headers@.skip(i as int)).1
                    == spec_import(old(storage).spec_chain_log(), old(storage).spec_synced(), headers@).1,
            decreases headers@.len() - i,
        {
            let h = headers[i];
            proof {
                assert(headers@.skip(i as int)[0] == headers@[i as int]);
                assert(headers@.skip(i as int).skip(1) =~= headers@.skip(i as int + 1));
            }
            if !storage.chain.status_in_chain(&h) {
                storage.chain.apply(&h);
                storage.synced_block_number = h.number;
            }
            i = i + 1;
        }
        proof {
            assert(headers@.skip(headers@.len() as int) =~= Seq::<Header>::empty());
            lemma_import_appends(old(storage).spec_chain_log(), old(storage).spec_synced(), headers@);
        }
    }

    /// Take a header-range response: parse the body, drop headers behind
    /// the synced height, raise the peer's reputation (well for a useful
    /// response, a little for an empty one), and import what is left.  A
    /// malformed body drops the peer.  The peer's sync mode is left exactly
    /// as stored: this layer drives no mode transitions, so a peer keeps
    /// the mode its embedder chose until the embedder changes it.
    pub fn handle_blocks_headers_res(
        storage: &mut SyncStorage,
        registry: &mut Registry,
        node: &mut Node,
        req: &ChannelBuffer,
    )
        requires
            old(storage).wf(),
            old(registry).wf(),
        ensures
            final(storage).wf(),
            final(registry).wf(),
            final(registry).spec_max_peers() == old(registry).spec_max_peers(),
            spec_parse_headers_from(req.body@, 0) is None ==> *final(node) == *old(node) && final(storage).spec_chain_log() =~= old(storage).spec_chain_log() && final(storage).spec_synced()
                == old(storage).spec_synced() && !spec_contains_hash(
                final(registry).spec_entries(),
                old(node).node_hash,
            ),
            spec_parse_headers_from(req.body@, 0) matches Some(parsed) ==> {
                let kept = spec_kept_headers(parsed, old(storage).spec_synced());
                &&& final(node).requested_block_num == spec_max_requested(
                    old(node).requested_block_num,
                    parsed,
                )
                &&& final(node).reputation == spec_sat_add64(
                    old(node).reputation,
                    if kept.len() > 0 {
                        10
                    } else {
                        1
                    },
                )
                &&& (kept.len() > 0 ==> final(storage).spec_chain_log() =~= spec_import(
                    old(storage).spec_chain_log(),
                    old(storage).spec_synced(),
                    kept,
                ).0 && final(storage).spec_synced() == spec_import(
                    old(storage).spec_chain_log(),
                    old(storage).spec_synced(),
                    kept,
                ).1)
                &&& (kept.len() == 0 ==> final(storage).spec_chain_log() =~= old(storage).spec_chain_log() && final(storage).spec_synced() == old(storage).spec_synced())
                &&& final(storage).spec_chain_log().subrange(
                    0,
                    old(storage).spec_chain_log().len() as int,
                ) =~= old(storage).spec_chain_log()
                &&& (!spec_contains_hash(old(registry).spec_entries(), old(node).node_hash)
                    ==> final(registry).spec_entries() =~= old(registry).spec_entries())
                // the peer keeps its sync mode: response-driven mode
                // transitions are no part of this layer
                &&& final(node).mode == old(node).mode
                &&& final(node).node_hash == old(node).node_hash
                // the stored record is the updated peer, when registered
                &&& (spec_contains_hash(final(registry).spec_entries(), old(node).node_hash)
                    ==> exists|i: int|
                    0 <= i < final(registry).spec_entries().len() && (#[trigger] final(registry).spec_entries()[i]).node == *final(node))
            },
    {
        let parsed = match decode_headers(&req.body) {
            None => {
                registry.remove_peer(node.node_hash);
                return ;
            },
            Some(v) => v,
        };
        let synced: u64 = storage.get_synced_block_number();
        let mut kept: Vec<Header> = Vec::new();
        let mut i: usize = 0;
        proof {
            assert(parsed@.subrange(0, 0) =~= Seq::<Header>::empty());
        }
        while i < parsed.len()
            invariant
                i <= parsed@.len(),
                kept@ =~= spec_kept_headers(parsed@.subrange(0, i as int), synced),
                node.requested_block_num == spec_max_requested(
                    old(node).requested_block_num,
                    parsed@.subrange(0, i as int),
                ),
                *node == (Node { requested_block_num: node.requested_block_num, ..*old(node) }),
            decreases parsed@.len() - i,
        {
            proof {
                assert(parsed@.subrange(0, i + 1).drop_last() =~= parsed@.subrange(0, i as int));
                assert(parsed@.subrange(0, i + 1).last() == parsed@[i as int]);
            }
            let h = parsed[i];
            if h.number >= synced {
                kept.push(h);
            }
            if node.requested_block_num < h.number {
                node.requested_block_num = h.number;
            }
            i = i + 1;
        }
        proof {
            assert(parsed@.subrange(0, parsed@.len() as int) =~= parsed@);
        }
        if kept.len() > 0 {
            node.inc_reputation(10);
            Self::import_block_header(storage, &kept);
        } else {
            node.inc_reputation(1);
        }
        let ghost pre = *registry;
        registry.update_node_with_mode(node.node_hash, node);
        proof {
            if spec_contains_hash(pre.spec_entries(), node.node_hash) {
                let i = choose|i: int|
                    0 <= i < pre.spec_entries().len() && (
                    #[trigger] pre.spec_entries()[i]).node.node_hash == node.node_hash
                        && registry.spec_entries() =~= pre.spec_entries().update(
                        i,
                        (crate::registry::PeerEntry {
                            node: (Node { node_hash: node.node_hash, ..*node }),
                            tx: pre.spec_entries()[i].tx,
                        }),
                    );
                assert((registry.spec_entries()[i]).node == *node);
            }
        }
    }
}

} // verus!

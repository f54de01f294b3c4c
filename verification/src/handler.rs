//! Dispatch of incoming frames: handshakes, liveness and the active-nodes
//! exchange.
//!
//! Frames of the control module are consumed here against the peer registry;
//! frames of the external module are handed back to the caller, who forwards
//! them to the embedder's handler in arrival order.

use vstd::prelude::*;
use crate::codec::{
    ChannelBuffer, Head, spec_wf_frame, spec_be32, spec_be32_at, push_be32, read_be32,
    MAX_FRAME_LENGTH, VERSION_V0, VERSION_V1, MODULE_P2P, MODULE_EXTERNAL, ACTION_DISCONNECT,
    ACTION_HANDSHAKEREQ, ACTION_HANDSHAKERES, ACTION_PING, ACTION_PONG, ACTION_ACTIVENODESREQ,
    ACTION_ACTIVENODESRES,
};
use crate::node::{Node, ALIVE, CONNECTED, DISCONNECTED};
use crate::registry::{Registry, PeerEntry, spec_contains_hash};

verus! {

/// At most this many peers are advertised in one response.
pub const MAX_ADVERTISED_PEERS: usize = 16;

/// The fields of a handshake request.
pub struct HandshakeReq {
    pub node_id: [u8; 36],
    pub net_id: u32,
    pub ip: [u8; 8],
    pub port: u32,
    pub revision: Vec<u8>,
}

/// A handshake request body is the identity, the net id, the endpoint, and
/// a length-prefixed revision string.
pub open spec fn spec_wf_handshake_req(h: HandshakeReq) -> bool {
    h.revision@.len() <= 255
}

/// The wire form of a handshake request.
pub open spec fn spec_encode_handshake_req(h: HandshakeReq) -> Seq<u8> {
    h.node_id@ + spec_be32(h.net_id) + h.ip@ + spec_be32(h.port) + seq![h.revision@.len() as u8]
        + h.revision@
}

/// Whether `b` is a well-formed handshake request body: the fixed fields
/// and a revision that fills the rest exactly.
pub open spec fn spec_parses_handshake_req(b: Seq<u8>) -> bool {
    &&& b.len() >= 53
    &&& b.len() == 53 + b[52]
}

/// Encode a handshake request body.
pub fn encode_handshake_req(h: &HandshakeReq) -> (r: Vec<u8>)
    requires
        spec_wf_handshake_req(*h),
    ensures
        r@ =~= spec_encode_handshake_req(*h),
        r@.len() == 53 + h.revision@.len(),
{
    let mut out: Vec<u8> = Vec::new();
    let mut i: usize = 0;
    while i < 36
        invariant
            i <= 36,
            out@ =~= h.node_id@.subrange(0, i as int),
        decreases 36 - i,
    {
        out.push(h.node_id[i]);
        i = i + 1;
    }
    proof {
        assert(out@ =~= h.node_id@);
    }
    push_be32(&mut out, h.net_id);
    let mut j: usize = 0;
    while j < 8
        invariant
            j <= 8,
            out@ =~= h.node_id@ + spec_be32(h.net_id) + h.ip@.subrange(0, j as int),
        decreases 8 - j,
    {
        out.push(h.ip[j]);
        j = j + 1;
    }
    proof {
        assert(h.ip@.subrange(0, 8) =~= h.ip@);
    }
    push_be32(&mut out, h.port);
    out.push(h.revision.len() as u8);
    let mut k: usize = 0;
    while k < h.revision.len()
        invariant
            k <= h.revision@.len(),
            h.revision@.len() <= 255,
            out@ =~= h.node_id@ + spec_be32(h.net_id) + h.ip@ + spec_be32(h.port) + seq![
                h.revision@.len() as u8,
            ] + h.revision@.subrange(0, k as int),
        decreases h.revision@.len() - k,
    {
        out.push(h.revision[k]);
        k = k + 1;
    }
    proof {
        assert(h.revision@.subrange(0, h.revision@.len() as int) =~= h.revision@);
    }
    out
}

/// Parse a handshake request body; rejects any length mismatch.
pub fn parse_handshake_req(body: &Vec<u8>) -> (r: Option<HandshakeReq>)
    ensures
        match r {
            Some(h) => {
                &&& spec_parses_handshake_req(body@)
                &&& h.node_id@ =~= body@.subrange(0, 36)
                &&& h.net_id == spec_be32_at(body@, 36)
                &&& h.ip@ =~= body@.subrange(40, 48)
                &&& h.port == spec_be32_at(body@, 48)
                &&& h.revision@ =~= body@.subrange(53, body@.len() as int)
                &&& spec_wf_handshake_req(h)
            },
            None => !spec_parses_handshake_req(body@),
        },
{
    if body.len() < 53 {
        return None;
    }
    let rev_len: u8 = body[52];
    if body.len() != 53 + rev_len as usize {
        return None;
    }
    let mut node_id: [u8; 36] = [0; 36];
    let mut i: usize = 0;
    while i < 36
        invariant
            i <= 36,
            body@.len() >= 53,
            node_id@.len() == 36,
            forall|j: int| 0 <= j < i ==> node_id@[j] == body@[j],
        decreases 36 - i,
    {
        node_id[i] = body[i];
        i = i + 1;
    }
    let net_id: u32 = read_be32(body, 36);
    let mut ip: [u8; 8] = [0; 8];
    let mut j: usize = 0;
    while j < 8
        invariant
            j <= 8,
            body@.len() >= 53,
            ip@.len() == 8,
            forall|t: int| 0 <= t < j ==> ip@[t] == body@[40 + t],
        decreases 8 - j,
    {
        ip[j] = body[40 + j];
        j = j + 1;
    }
    let port: u32 = read_be32(body, 48);
    let mut revision: Vec<u8> = Vec::new();
    let mut k: usize = 0;
    while k < rev_len as usize
        invariant
            k <= rev_len,
            body@.len() == 53 + rev_len,
            revision@ =~= body@.subrange(53, 53 + k as int),
        decreases rev_len as int - k as int,
    {
        revision.push(body[53 + k]);
        k = k + 1;
    }
    proof {
        assert(node_id@ =~= body@.subrange(0, 36));
        assert(ip@ =~= body@.subrange(40, 48));
    }
    Some(HandshakeReq { node_id, net_id, ip, port, revision })
}

/// The wire form of a handshake response: a result byte and a
/// length-prefixed revision.
pub open spec fn spec_encode_handshake_res(result: u8, revision: Seq<u8>) -> Seq<u8> {
    seq![result, revision.len() as u8] + revision
}

/// Encode a handshake response body.
pub fn encode_handshake_res(result: u8, revision: &Vec<u8>) -> (r: Vec<u8>)
    requires
        revision@.len() <= 255,
    ensures
        r@ =~= spec_encode_handshake_res(result, revision@),
{
    let mut out: Vec<u8> = Vec::new();
    out.push(result);
    out.push(revision.len() as u8);
    let mut k: usize = 0;
    while k < revision.len()
        invariant
            k <= revision@.len(),
            revision@.len() <= 255,
            out@ =~= seq![result, revision@.len() as u8] + revision@.subrange(0, k as int),
        decreases revision@.len() - k,
    {
        out.push(revision[k]);
        k = k + 1;
    }
    proof {
        assert(revision@.subrange(0, revision@.len() as int) =~= revision@);
    }
    out
}

/// Whether `b` is a well-formed handshake response body.
pub open spec fn spec_parses_handshake_res(b: Seq<u8>) -> bool {
    &&& b.len() >= 2
    &&& b.len() == 2 + b[1]
}

/// Parse a handshake response body: the result byte and the revision.
pub fn parse_handshake_res(body: &Vec<u8>) -> (r: Option<(u8, Vec<u8>)>)
    ensures
        match r {
            Some(p) => spec_parses_handshake_res(body@) && p.0 == body@[0] && p.1@ =~= body@
                .subrange(2, body@.len() as int),
            None => !spec_parses_handshake_res(body@),
        },
{
    if body.len() < 2 {
        return None;
    }
    let rev_len: u8 = body[1];
    if body.len() != 2 + rev_len as usize {
        return None;
    }
    let result: u8 = body[0];
    let mut revision: Vec<u8> = Vec::new();
    let mut k: usize = 0;
    while k < rev_len as usize
        invariant
            k <= rev_len,
            body@.len() == 2 + rev_len,
            revision@ =~= body@.subrange(2, 2 + k as int),
        decreases rev_len as int - k as int,
    {
        revision.push(body[2 + k]);
        k = k + 1;
    }
    Some((result, revision))
}

/// One advertised peer of an active-nodes response.
#[derive(Clone, Copy, Debug)]
pub struct AdvertisedPeer {
    pub node_id: [u8; 36],
    pub ip: [u8; 8],
    pub port: u32,
}

/// The wire form of one advertised peer.
pub open spec fn spec_encode_advertised(p: AdvertisedPeer) -> Seq<u8> {
    p.node_id@ + p.ip@ + spec_be32(p.port)
}

/// Encode an active-nodes response body: a count, then the peers.
pub fn encode_active_nodes(peers: &Vec<AdvertisedPeer>) -> (r: Vec<u8>)
    requires
        peers@.len() <= 255,
    ensures
        r@.len() == 1 + 48 * peers@.len(),
        r@[0] == peers@.len() as u8,
        forall|i: int|
            0 <= i < peers@.len() ==> r@.subrange(1 + 48 * i, 1 + 48 * (i + 1))
                =~= spec_encode_advertised(#[trigger] peers@[i]),
{
    let mut out: Vec<u8> = Vec::new();
    out.push(peers.len() as u8);
    let mut i: usize = 0;
    while i < peers.len()
        invariant
            i <= peers@.len(),
            peers@.len() <= 255,
            out@.len() == 1 + 48 * i,
            out@[0] == peers@.len() as u8,
            forall|t: int|
                0 <= t < i ==> out@.subrange(1 + 48 * t, 1 + 48 * (t + 1))
                    =~= spec_encode_advertised(#[trigger] peers@[t]),
        decreases peers@.len() - i,
    {
        let ghost before = out@;
        let p = &peers[i];
        let mut a: usize = 0;
        while a < 36
            invariant
                a <= 36,
                out@ =~= before + p.node_id@.subrange(0, a as int),
            decreases 36 - a,
        {
            out.push(p.node_id[a]);
            a = a + 1;
        }
        let mut b: usize = 0;
        while b < 8
            invariant
                b <= 8,
                out@ =~= before + p.node_id@.subrange(0, 36) + p.ip@.subrange(0, b as int),
            decreases 8 - b,
        {
            out.push(p.ip[b]);
            b = b + 1;
        }
        push_be32(&mut out, p.port);
        proof {
            assert(p.node_id@.subrange(0, 36) =~= p.node_id@);
            assert(p.ip@.subrange(0, 8) =~= p.ip@);
            assert(out@ =~= before + spec_encode_advertised(peers@[i as int]));
            assert forall|t: int| 0 <= t < i + 1 implies out@.subrange(1 + 48 * t, 1 + 48 * (t
                + 1)) =~= spec_encode_advertised(#[trigger] peers@[t]) by {
                if t < i {
                    assert(out@.subrange(1 + 48 * t, 1 + 48 * (t + 1)) =~= before.subrange(
                        1 + 48 * t,
                        1 + 48 * (t + 1),
                    ));
                } else {
                    assert(out@.subrange(1 + 48 * t, 1 + 48 * (t + 1)) =~= spec_encode_advertised(
                        peers@[t],
                    ));
                }
            }
        }
        i = i + 1;
    }
    out
}

/// Whether `b` is a well-formed active-nodes response body.
pub open spec fn spec_parses_active_nodes(b: Seq<u8>) -> bool {
    &&& b.len() >= 1
    &&& b.len() == 1 + 48 * b[0]
}

/// Parse an active-nodes response body into the advertised peers.
pub fn parse_active_nodes(body: &Vec<u8>) -> (r: Option<Vec<AdvertisedPeer>>)
    ensures
        match r {
            Some(v) => {
                &&& spec_parses_active_nodes(body@)
                &&& v@.len() == body@[0]
                &&& forall|i: int|
                    0 <= i < v@.len() ==> spec_encode_advertised(#[trigger] v@[i]) =~= body@
                        .subrange(1 + 48 * i, 1 + 48 * (i + 1))
            },
            None => !spec_parses_active_nodes(body@),
        },
{
    if body.len() < 1 {
        return None;
    }
    let count: u8 = body[0];
    if body.len() != 1 + 48 * count as usize {
        return None;
    }
    let mut out: Vec<AdvertisedPeer> = Vec::new();
    let mut i: usize = 0;
    while i < count as usize
        invariant
            i <= count,
            body@.len() == 1 + 48 * count,
            out@.len() == i,
            forall|t: int|
                0 <= t < i ==> spec_encode_advertised(#[trigger] out@[t]) =~= body@.subrange(
                    1 + 48 * t,
                    1 + 48 * (t + 1),
                ),
        decreases count as int - i as int,
    {
        let base: usize = 1 + 48 * i;
        let mut node_id: [u8; 36] = [0; 36];
        let mut a: usize = 0;
        while a < 36
            invariant
                a <= 36,
                base == 1 + 48 * i,
                i < count,
                body@.len() == 1 + 48 * count,
                node_id@.len() == 36,
                forall|j: int| 0 <= j < a ==> node_id@[j] == body@[base + j],
            decreases 36 - a,
        {
            node_id[a] = body[base + a];
            a = a + 1;
        }
        let mut ip: [u8; 8] = [0; 8];
        let mut b: usize = 0;
        while b < 8
            invariant
                b <= 8,
                base == 1 + 48 * i,
                i < count,
                body@.len() == 1 + 48 * count,
                ip@.len() == 8,
                forall|j: int| 0 <= j < b ==> ip@[j] == body@[base + 36 + j],
            decreases 8 - b,
        {
            ip[b] = body[base + 36 + b];
            b = b + 1;
        }
        let port: u32 = read_be32(body, base + 44);
        let p = AdvertisedPeer { node_id, ip, port };
        proof {
            crate::codec::lemma_be32_bytes_round_trip(
                body@[base + 44],
                body@[base + 45],
                body@[base + 46],
                body@[base + 47],
            );
            assert(spec_encode_advertised(p) =~= body@.subrange(1 + 48 * (i as int), 1 + 48 * (
            i as int + 1)));
        }
        out.push(p);
        i = i + 1;
    }
    Some(out)
}


/// What became of an incoming frame.
pub enum DispatchOutcome {
    /// The control layer consumed the frame.
    Consumed,
    /// A frame of the external module; the caller forwards it, in arrival
    /// order, to the handler the embedder registered.
    External(ChannelBuffer),
}

/// Build a control frame around a body.
fn make_p2p_frame(action: u8, body: Vec<u8>) -> (r: ChannelBuffer)
    requires
        body@.len() <= MAX_FRAME_LENGTH,
    ensures
        r.head.ver == VERSION_V0,
        r.head.ctrl == MODULE_P2P,
        r.head.action == action,
        r.body@ =~= body@,
        spec_wf_frame(r),
{
    let len: u32 = body.len() as u32;
    ChannelBuffer { head: Head { ver: VERSION_V0, ctrl: MODULE_P2P, action, len }, body }
}

/// Queue a handshake request carrying the local identity on the peer's
/// write channel.
pub fn send_handshake_req(
    registry: &mut Registry,
    local: &Node,
    net_id: u32,
    revision: &Vec<u8>,
    target_hash: u64,
)
    requires
        old(registry).wf(),
        revision@.len() <= 255,
    ensures
        final(registry).wf(),
        final(registry).spec_max_peers() == old(registry).spec_max_peers(),
{
    let h = HandshakeReq {
        node_id: local.node_id,
        net_id,
        ip: local.ip_addr.ip,
        port: local.ip_addr.port,
        revision: crate::codec::copy_bytes(revision),
    };
    let body = encode_handshake_req(&h);
    let frame = make_p2p_frame(ACTION_HANDSHAKEREQ, body);
    registry.send(target_hash, frame);
}

/// Take a handshake request: validate the net id, adopt the peer's
/// identity, promote the peer to alive, reply, and push the record into the
/// registry.  A malformed body or a foreign net id drops the peer.
pub fn handshake_receive_req(
    registry: &mut Registry,
    net_id: u32,
    revision: &Vec<u8>,
    node: &mut Node,
    req: &ChannelBuffer,
)
    requires
        old(registry).wf(),
        revision@.len() <= 255,
    ensures
        final(registry).wf(),
        final(registry).spec_max_peers() == old(registry).spec_max_peers(),
        !(spec_parses_handshake_req(req.body@) && spec_be32_at(req.body@, 36) == net_id) ==> *final(node) == *old(node) && !spec_contains_hash(final(registry).spec_entries(), old(node).node_hash),
        (spec_parses_handshake_req(req.body@) && spec_be32_at(req.body@, 36) == net_id) ==> {
            &&& final(node).node_id@ =~= req.body@.subrange(0, 36)
            &&& final(node).net_id == net_id
            &&& final(node).state_code == (old(node).state_code | ALIVE | CONNECTED)
            // the record moves to its identity key when that key is free
            &&& (final(node).node_hash == old(node).node_hash || final(node).node_hash
                == crate::node::spec_fnv(final(node).node_id@))
            // whenever the registry still holds the peer, it holds exactly
            // the promoted record
            &&& (spec_contains_hash(final(registry).spec_entries(), final(node).node_hash)
                ==> exists|i: int|
                0 <= i < final(registry).spec_entries().len() && (#[trigger] final(registry).spec_entries()[i]).node == *final(node))
        },
{
    let parsed = match parse_handshake_req(&req.body) {
        None => {
            registry.remove_peer(node.node_hash);
            return ;
        },
        Some(h) => h,
    };
    if parsed.net_id != net_id {
        registry.remove_peer(node.node_hash);
        return ;
    }
    node.node_id = parsed.node_id;
    node.net_id = parsed.net_id;
    node.state_code = node.state_code | ALIVE | CONNECTED;
    // promote an inbound peer to its identity-based key; a key already
    // taken means a duplicate of a known peer, which is dropped
    let promoted_hash = crate::node::id_hash(&node.node_id);
    if promoted_hash != node.node_hash {
        if registry.rekey_peer(node.node_hash, promoted_hash) {
            node.node_hash = promoted_hash;
        } else if registry.get_node(promoted_hash).is_some() {
            registry.remove_peer(node.node_hash);
            return ;
        }
    }
    let body = encode_handshake_res(0, revision);
    let frame = make_p2p_frame(ACTION_HANDSHAKERES, body);
    registry.send(node.node_hash, frame);
    let ghost pre = *registry;
    registry.update_node_with_mode(node.node_hash, node);
    proof {
        lemma_updated_record_is_patch(pre, *registry, *node);
    }
}

/// Take a handshake response: on success promote the peer to alive and
/// store the record; on failure or a malformed body drop the peer.
pub fn handshake_receive_res(registry: &mut Registry, node: &mut Node, req: &ChannelBuffer)
    requires
        old(registry).wf(),
    ensures
        final(registry).wf(),
        final(registry).spec_max_peers() == old(registry).spec_max_peers(),
        !(spec_parses_handshake_res(req.body@) && req.body@[0] == 0) ==> *final(node) == *old(node)
            && !spec_contains_hash(final(registry).spec_entries(), old(node).node_hash),
        (spec_parses_handshake_res(req.body@) && req.body@[0] == 0) ==> {
            &&& final(node).state_code == (old(node).state_code | ALIVE | CONNECTED)
            &&& *final(node) == (Node { state_code: final(node).state_code, ..*old(node) })
            // whenever the registry still holds the peer, it holds exactly
            // the promoted record
            &&& (spec_contains_hash(final(registry).spec_entries(), final(node).node_hash)
                ==> exists|i: int|
                0 <= i < final(registry).spec_entries().len() && (#[trigger] final(registry).spec_entries()[i]).node == *final(node))
        },
{
    let parsed = match parse_handshake_res(&req.body) {
        None => {
            registry.remove_peer(node.node_hash);
            return ;
        },
        Some(p) => p,
    };
    if parsed.0 != 0 {
        registry.remove_peer(node.node_hash);
        return ;
    }
    node.state_code = node.state_code | ALIVE | CONNECTED;
    let ghost pre = *registry;
    registry.update_node_with_mode(node.node_hash, node);
    proof {
        lemma_updated_record_is_patch(pre, *registry, *node);
    }
}

/// The records of a list that do not carry the requester's key.
pub open spec fn spec_without_hash(ns: Seq<Node>, requester: u64) -> Seq<Node>
    decreases ns.len(),
{
    if ns.len() == 0 {
        Seq::empty()
    } else {
        spec_without_hash(ns.drop_last(), requester) + if ns.last().node_hash != requester {
            seq![ns.last()]
        } else {
            Seq::empty()
        }
    }
}

/// Whether an advertised peer carries the identity and endpoint of one of
/// the given records.
pub open spec fn spec_advertised_from(p: AdvertisedPeer, ns: Seq<Node>) -> bool {
    exists|i: int|
        0 <= i < ns.len() && p.node_id == (#[trigger] ns[i]).node_id && p.ip == ns[i].ip_addr.ip
            && p.port == ns[i].ip_addr.port
}

/// Choose the peers to advertise to an asker: up to sixteen alive peers
/// other than the asker itself, taken from a uniformly drawn starting point
/// of that pool.  Exactly `min(16, pool size)` peers come back, each one an
/// alive registered peer different from the asker.
pub fn select_active_peers(registry: &Registry, requester: u64) -> (r: Vec<AdvertisedPeer>)
    ensures
        ({
            let pool = spec_without_hash(
                crate::registry::spec_nodes_with_state(registry.spec_entries(), ALIVE),
                requester,
            );
            &&& r@.len() == if pool.len() < MAX_ADVERTISED_PEERS {
                pool.len() as int
            } else {
                MAX_ADVERTISED_PEERS as int
            }
            &&& forall|j: int|
                0 <= j < r@.len() ==> spec_advertised_from(#[trigger] r@[j], pool)
        }),
{
    let alive = registry.get_nodes(ALIVE);
    let mut others: Vec<Node> = Vec::new();
    let mut i: usize = 0;
    proof {
        assert(alive@.subrange(0, 0) =~= Seq::<Node>::empty());
    }
    while i < alive.len()
        invariant
            i <= alive@.len(),
            others@ =~= spec_without_hash(alive@.subrange(0, i as int), requester),
        decreases alive@.len() - i,
    {
        proof {
            assert(alive@.subrange(0, i + 1).drop_last() =~= alive@.subrange(0, i as int));
            assert(alive@.subrange(0, i + 1).last() == alive@[i as int]);
        }
        if alive[i].node_hash != requester {
            others.push(alive[i]);
        }
        i = i + 1;
    }
    proof {
        assert(alive@.subrange(0, alive@.len() as int) =~= alive@);
    }
    proof {
        assert(alive@ == crate::registry::spec_nodes_with_state(registry.spec_entries(), ALIVE));
        assert(others@ == spec_without_hash(
            crate::registry::spec_nodes_with_state(registry.spec_entries(), ALIVE),
            requester,
        ));
    }
    let total: usize = others.len();
    let mut out: Vec<AdvertisedPeer> = Vec::new();
    if total == 0 {
        return out;
    }
    {
        let start: usize = crate::registry::random_below(total);
        let limit: usize = if total < MAX_ADVERTISED_PEERS {
            total
        } else {
            MAX_ADVERTISED_PEERS
        };
        let mut j: usize = 0;
        while j < limit
            invariant
                j <= limit,
                limit <= total,
                total == others@.len(),
                start < total,
                out@.len() == j,
                forall|t: int| 0 <= t < j ==> spec_advertised_from(#[trigger] out@[t], others@),
            decreases limit - j,
        {
            let idx: usize = if j >= total - start {
                j - (total - start)
            } else {
                start + j
            };
            let cand = &others[idx];
            let p = AdvertisedPeer { node_id: cand.node_id, ip: cand.ip_addr.ip, port:
                cand.ip_addr.port };
            proof {
                assert(p.node_id == others@[idx as int].node_id && p.ip == others@[
                    idx as int].ip_addr.ip && p.port == others@[idx as int].ip_addr.port);
                assert(spec_advertised_from(p, others@));
            }
            out.push(p);
            j = j + 1;
        }
    }
    proof {
        let pool = spec_without_hash(
            crate::registry::spec_nodes_with_state(registry.spec_entries(), ALIVE),
            requester,
        );
        assert(others@ == pool);
        assert(out@.len() == if pool.len() < MAX_ADVERTISED_PEERS {
            pool.len() as int
        } else {
            MAX_ADVERTISED_PEERS as int
        });
    }
    out
}

/// Answer an active-nodes request: advertise up to sixteen alive peers
/// other than the asker (chosen by `select_active_peers`, which fixes the
/// selection exactly), and queue the encoded response on the asker's
/// channel.
pub fn active_nodes_receive_req(registry: &mut Registry, node: &Node)
    requires
        old(registry).wf(),
    ensures
        final(registry).wf(),
        final(registry).spec_max_peers() == old(registry).spec_max_peers(),
{
    let peers = select_active_peers(registry, node.node_hash);
    proof {
        assert(peers@.len() <= 255);
    }
    let body = encode_active_nodes(&peers);
    proof {
        assert(body@.len() <= MAX_FRAME_LENGTH);
    }
    let frame = make_p2p_frame(ACTION_ACTIVENODESRES, body);
    registry.send(node.node_hash, frame);
}

/// The record an advertised peer enters the registry as: keyed by the hash
/// of its identifier, marked disconnected, everything else fresh.
pub open spec fn spec_advertised_node(p: AdvertisedPeer) -> Node {
    Node {
        node_hash: crate::node::spec_fnv(p.node_id@),
        node_id: p.node_id,
        ip_addr: (crate::node::IpAddr { ip: p.ip, port: p.port, is_server: false }),
        is_from_boot_list: false,
        state_code: DISCONNECTED,
        mode: crate::node::Mode::NORMAL,
        net_id: 0u32,
        current_total_difficulty: 0u128,
        target_total_difficulty: 0u128,
        requested_block_num: 0u64,
        last_request_num: 0u64,
        last_request_timestamp: 0u64,
        reputation: 0u64,
    }
}

/// The registry entries after absorbing a run of advertised peers, in
/// order: each peer with a fresh identity hash is appended as a
/// disconnected record while the cap allows; the rest change nothing.
pub open spec fn spec_absorb_advertised(
    entries: Seq<PeerEntry>,
    max: u16,
    ps: Seq<AdvertisedPeer>,
) -> Seq<PeerEntry>
    decreases ps.len(),
{
    if ps.len() == 0 {
        entries
    } else {
        let n = spec_advertised_node(ps[0]);
        let stepped = if !spec_contains_hash(entries, n.node_hash) && entries.len() < max {
            entries.push(PeerEntry { node: n, tx: None })
        } else {
            entries
        };
        spec_absorb_advertised(stepped, max, ps.skip(1))
    }
}

/// Take an active-nodes response: absorb each advertised peer, in wire
/// order, as a known disconnected node keyed by the hash of its identifier,
/// subject to the registry cap.  Known peers stay exactly as they are; a
/// malformed body drops the sender.
pub fn active_nodes_receive_res(registry: &mut Registry, node: &mut Node, req: &ChannelBuffer)
    requires
        old(registry).wf(),
    ensures
        final(registry).wf(),
        final(registry).spec_max_peers() == old(registry).spec_max_peers(),
        *final(node) == *old(node),
        !spec_parses_active_nodes(req.body@) ==> !spec_contains_hash(
            final(registry).spec_entries(),
            old(node).node_hash,
        ),
        spec_parses_active_nodes(req.body@) ==> exists|ps: Seq<AdvertisedPeer>|
            ps.len() == req.body@[0] && (forall|i: int|
                0 <= i < ps.len() ==> spec_encode_advertised(#[trigger] ps[i]) =~= req.body@
                    .subrange(1 + 48 * i, 1 + 48 * (i + 1))) && final(registry).spec_entries()
                =~= spec_absorb_advertised(
                old(registry).spec_entries(),
                old(registry).spec_max_peers(),
                ps,
            ),
        spec_parses_active_nodes(req.body@) ==> forall|h: u64|
            spec_contains_hash(old(registry).spec_entries(), h) ==> spec_contains_hash(
                final(registry).spec_entries(),
                h,
            ),
{
    let advertised = match parse_active_nodes(&req.body) {
        None => {
            registry.remove_peer(node.node_hash);
            return ;
        },
        Some(v) => v,
    };
    let ghost max = registry.spec_max_peers();
    let mut i: usize = 0;
    proof {
        assert(advertised@.skip(0) =~= advertised@);
    }
    while i < advertised.len()
        invariant
            old(registry).wf(),
            registry.wf(),
            registry.spec_max_peers() == old(registry).spec_max_peers(),
            max == old(registry).spec_max_peers(),
            i <= advertised@.len(),
            spec_absorb_advertised(registry.spec_entries(), max, advertised@.skip(i as int))
                =~= spec_absorb_advertised(
                old(registry).spec_entries(),
                max,
                advertised@,
            ),
            forall|h: u64|
                spec_contains_hash(old(registry).spec_entries(), h) ==> spec_contains_hash(
                    registry.spec_entries(),
                    h,
                ),
        decreases advertised@.len() - i,
    {
        let ghost entries_before = registry.spec_entries();
        let p = advertised[i];
        let mut fresh = crate::node::Node::new_with_parts(p.node_id, p.ip, p.port);
        fresh.node_hash = crate::node::id_hash(&p.node_id);
        fresh.state_code = DISCONNECTED;
        proof {
            assert(fresh == spec_advertised_node(advertised@[i as int]));
            assert(advertised@.skip(i as int)[0] == advertised@[i as int]);
            assert(advertised@.skip(i as int).skip(1) =~= advertised@.skip(i as int + 1));
        }
        registry.add_node(fresh);
        proof {
            assert forall|h: u64| spec_contains_hash(old(registry).spec_entries(), h)
                implies spec_contains_hash(registry.spec_entries(), h) by {
                assert(spec_contains_hash(entries_before, h));
                let j = choose|j: int|
                    0 <= j < entries_before.len() && entries_before[j].node.node_hash == h;
                assert(registry.spec_entries()[j].node.node_hash == h);
            }
        }
        i = i + 1;
    }
    proof {
        assert(advertised@.skip(advertised@.len() as int) =~= Seq::<AdvertisedPeer>::empty());
        assert(exists|ps: Seq<AdvertisedPeer>|
            ps.len() == req.body@[0] && (forall|t: int|
                0 <= t < ps.len() ==> spec_encode_advertised(#[trigger] ps[t]) =~= req.body@
                    .subrange(1 + 48 * t, 1 + 48 * (t + 1))) && registry.spec_entries()
                =~= spec_absorb_advertised(
                old(registry).spec_entries(),
                old(registry).spec_max_peers(),
                ps,
            )) by {
            assert(advertised@.len() == req.body@[0] && (forall|t: int|
                0 <= t < advertised@.len() ==> spec_encode_advertised(#[trigger] advertised@[t])
                    =~= req.body@.subrange(1 + 48 * t, 1 + 48 * (t + 1)))
                && registry.spec_entries() =~= spec_absorb_advertised(
                old(registry).spec_entries(),
                old(registry).spec_max_peers(),
                advertised@,
            ));
        }
    }
}

/// Dispatch one incoming frame for a peer.  Version-one frames trigger a
/// handshake toward the peer; version-zero control frames are handled
/// against the registry; frames of the external module come back to the
/// caller for the embedder, exactly one outcome per frame.
pub fn handle(
    registry: &mut Registry,
    local: &Node,
    net_id: u32,
    revision: &Vec<u8>,
    node: &mut Node,
    req: ChannelBuffer,
) -> (r: DispatchOutcome)
    requires
        old(registry).wf(),
        revision@.len() <= 255,
    ensures
        final(registry).wf(),
        final(registry).spec_max_peers() == old(registry).spec_max_peers(),
        (req.head.ver == VERSION_V0 && req.head.ctrl == MODULE_EXTERNAL) <==> (r matches
            DispatchOutcome::External(f) && f == req),
        // an external frame is handed over untouched and touches nothing:
        // the dispatcher performs no control action for it
        (req.head.ver == VERSION_V0 && req.head.ctrl == MODULE_EXTERNAL) ==> *final(node) == *old(node) && final(registry).spec_entries() =~= old(registry).spec_entries() && final(registry).spec_sockets() =~= old(registry).spec_sockets(),
        req.head.ver == VERSION_V1 ==> *final(node) == *old(node),
        (req.head.ver == VERSION_V0 && req.head.ctrl == MODULE_P2P && req.head.action
            == ACTION_DISCONNECT) ==> final(node).state_code == DISCONNECTED
            && !spec_contains_hash(final(registry).spec_entries(), old(node).node_hash),
{
    if req.head.ver == VERSION_V1 {
        send_handshake_req(registry, local, net_id, revision, node.node_hash);
        return DispatchOutcome::Consumed;
    }
    if req.head.ver != VERSION_V0 {
        return DispatchOutcome::Consumed;
    }
    if req.head.ctrl == MODULE_EXTERNAL {
        return DispatchOutcome::External(req);
    }
    if req.head.ctrl != MODULE_P2P {
        return DispatchOutcome::Consumed;
    }
    let action: u8 = req.head.action;
    if action == ACTION_DISCONNECT {
        node.state_code = DISCONNECTED;
        registry.remove_peer(node.node_hash);
    } else if action == ACTION_HANDSHAKEREQ {
        handshake_receive_req(registry, net_id, revision, node, &req);
    } else if action == ACTION_HANDSHAKERES {
        handshake_receive_res(registry, node, &req);
    } else if action == ACTION_PING || action == ACTION_PONG {
        // liveness is observed implicitly; nothing to do
    } else if action == ACTION_ACTIVENODESREQ {
        active_nodes_receive_req(registry, node);
    } else if action == ACTION_ACTIVENODESRES {
        active_nodes_receive_res(registry, node, &req);
    } else {
        // unknown control action: ignored
    }
    DispatchOutcome::Consumed
}


/// After a merge of a patch under the patch's own key, whenever the
/// registry holds that key it holds exactly the patch.
proof fn lemma_updated_record_is_patch(pre: Registry, post: Registry, patch: Node)
    requires
        !spec_contains_hash(pre.spec_entries(), patch.node_hash) ==> post.spec_entries()
            =~= pre.spec_entries(),
        spec_contains_hash(pre.spec_entries(), patch.node_hash) ==> exists|i: int|
            0 <= i < pre.spec_entries().len() && (#[trigger] pre.spec_entries()[i]).node.node_hash
                == patch.node_hash && post.spec_entries() =~= pre.spec_entries().update(
                i,
                (PeerEntry {
                    node: (Node { node_hash: patch.node_hash, ..patch }),
                    tx: pre.spec_entries()[i].tx,
                }),
            ),
    ensures
        spec_contains_hash(post.spec_entries(), patch.node_hash) ==> exists|i: int|
            0 <= i < post.spec_entries().len() && (#[trigger] post.spec_entries()[i]).node
                == patch,
{
    if spec_contains_hash(pre.spec_entries(), patch.node_hash) {
        let i = choose|i: int|
            0 <= i < pre.spec_entries().len() && (#[trigger] pre.spec_entries()[i]).node.node_hash
                == patch.node_hash && post.spec_entries() =~= pre.spec_entries().update(
                i,
                (PeerEntry {
                    node: (Node { node_hash: patch.node_hash, ..patch }),
                    tx: pre.spec_entries()[i].tx,
                }),
            );
        assert((post.spec_entries()[i]).node == patch);
    }
}

} // verus!

//! The peer registry and its socket bookkeeping.
//!
//! The registry owns the peer records, keyed by `node_hash`, and beside each
//! connected record the send half of that peer's bounded write channel.  A
//! parallel list of hashes stands for the socket map: the keys under which a
//! live socket is held outside the library.  Three invariants are kept at
//! every step: the registry never exceeds its capacity, no hash appears
//! twice, and a record holds a send handle exactly when the socket map holds
//! its hash.

use vstd::prelude::*;
use rand::RngExt;
use crate::codec::ChannelBuffer;
use crate::node::{Node, Mode};

verus! {

/// The send half of a peer's bounded write channel, from the standard
/// library; opaque to the proofs.
#[verifier::external_type_specification]
#[verifier::external_body]
#[verifier::reject_recursive_types(T)]
pub struct ExSyncSender<T>(std::sync::mpsc::SyncSender<T>);

/// Relies on std::sync::mpsc::SyncSender::try_send: queues the message
/// unless the channel is full or its receiver is gone; no claim is made
/// about which of the outcomes occurs.
#[verifier::external_body]
fn channel_try_send(tx: &std::sync::mpsc::SyncSender<ChannelBuffer>, msg: ChannelBuffer) -> (r:
    bool) {
    tx.try_send(msg).is_ok()
}

/// A registry slot: the peer record and, while connected, the send handle
/// of its write channel.
pub struct PeerEntry {
    pub node: Node,
    pub tx: Option<std::sync::mpsc::SyncSender<ChannelBuffer>>,
}

/// Whether some entry carries the hash.
pub open spec fn spec_contains_hash(s: Seq<PeerEntry>, h: u64) -> bool {
    exists|i: int| 0 <= i < s.len() && s[i].node.node_hash == h
}

/// No two entries share a hash.
pub open spec fn spec_unique_hashes(s: Seq<PeerEntry>) -> bool {
    forall|i: int, j: int|
        0 <= i < j < s.len() ==> (#[trigger] s[i]).node.node_hash != (#[trigger] s[j]).node.node_hash
}

/// No hash appears twice in the socket list.
pub open spec fn spec_unique_u64(s: Seq<u64>) -> bool {
    forall|i: int, j: int| 0 <= i < j < s.len() ==> s[i] != s[j]
}

/// In-memory mapping of peer hash to peer record and socket bookkeeping.
pub struct Registry {
    entries: Vec<PeerEntry>,
    sockets: Vec<u64>,
    max_peers: u16,
}

impl Registry {
    /// The stored peer entries, in insertion order.
    pub closed spec fn spec_entries(self) -> Seq<PeerEntry> {
        self.entries@
    }

    /// The hashes under which a live socket is held.
    pub closed spec fn spec_sockets(self) -> Seq<u64> {
        self.sockets@
    }

    /// The capacity the registry was built with.
    pub closed spec fn spec_max_peers(self) -> u16 {
        self.max_peers
    }

    /// Well-formedness: capacity respected, hashes unique in both maps, and
    /// a record holds a send handle exactly when a socket is held under its
    /// hash.
    pub closed spec fn wf(self) -> bool {
        &&& self.entries@.len() <= self.max_peers as int
        &&& spec_unique_hashes(self.entries@)
        &&& spec_unique_u64(self.sockets@)
        &&& (forall|i: int|
            0 <= i < self.entries@.len() ==> ((#[trigger] self.entries@[i]).tx is Some
                <==> self.sockets@.contains(self.entries@[i].node.node_hash)))
        &&& (forall|k: int|
            0 <= k < self.sockets@.len() ==> spec_contains_hash(self.entries@,
                #[trigger] self.sockets@[k]))
    }

    /// An empty registry with the given capacity.
    pub fn new(max_peers: u16) -> (r: Registry)
        ensures
            r.wf(),
            r.spec_entries().len() == 0,
            r.spec_sockets().len() == 0,
            r.spec_max_peers() == max_peers,
    {
        Registry { entries: Vec::new(), sockets: Vec::new(), max_peers }
    }

    /// Position of the entry carrying `h`, if any.
    fn find_index(&self, h: u64) -> (r: Option<usize>)
        ensures
            match r {
                Some(i) => i < self.entries@.len() && self.entries@[i as int].node.node_hash
                    == h,
                None => !spec_contains_hash(self.entries@, h),
            },
    {
        let mut i: usize = 0;
        while i < self.entries.len()
            invariant
                i <= self.entries@.len(),
                forall|j: int| 0 <= j < i ==> (#[trigger] self.entries@[j]).node.node_hash != h,
            decreases self.entries@.len() - i,
        {
            if self.entries[i].node.node_hash == h {
                return Some(i);
            }
            i = i + 1;
        }
        None
    }

    /// Position of `h` in the socket list, if any.
    fn socket_index(&self, h: u64) -> (r: Option<usize>)
        ensures
            match r {
                Some(k) => k < self.sockets@.len() && self.sockets@[k as int] == h,
                None => !self.sockets@.contains(h),
            },
    {
        let mut k: usize = 0;
        while k < self.sockets.len()
            invariant
                k <= self.sockets@.len(),
                forall|j: int| 0 <= j < k ==> self.sockets@[j] != h,
            decreases self.sockets@.len() - k,
        {
            if self.sockets[k] == h {
                return Some(k);
            }
            k = k + 1;
        }
        None
    }

    /// A copy of the record under `node_hash`.
    pub fn get_node(&self, node_hash: u64) -> (r: Option<Node>)
        ensures
            match r {
                Some(n) => n.node_hash == node_hash && exists|i: int|
                    0 <= i < self.spec_entries().len() && (#[trigger] self.spec_entries()[i]).node
                        == n && self.spec_entries()[i].node.node_hash == node_hash,
                None => !spec_contains_hash(self.spec_entries(), node_hash),
            },
    {
        match self.find_index(node_hash) {
            Some(i) => {
                let n = self.entries[i].node;
                proof {
                    assert((self.spec_entries()[i as int]).node == n);
                }
                Some(n)
            },
            None => None,
        }
    }

    /// Insert a connected peer and take custody of its socket: accepted only
    /// when the hash is new to both maps and the registry is below capacity.
    /// On rejection the caller must shut its socket down.
    pub fn add_peer(&mut self, node: Node, tx: std::sync::mpsc::SyncSender<ChannelBuffer>) -> (
        added: bool)
        requires
            old(self).wf(),
        ensures
            final(self).wf(),
            final(self).spec_max_peers() == old(self).spec_max_peers(),
            added <==> (!old(self).spec_sockets().contains(node.node_hash)
                && !spec_contains_hash(old(self).spec_entries(), node.node_hash) && old(self).spec_entries().len() < old(self).spec_max_peers()),
            added ==> final(self).spec_entries() =~= old(self).spec_entries().push(
                (PeerEntry { node, tx: Some(tx) }),
            ) && final(self).spec_sockets() =~= old(self).spec_sockets().push(node.node_hash),
            !added ==> final(self).spec_entries() =~= old(self).spec_entries() && final(self).spec_sockets() =~= old(self).spec_sockets(),
    {
        let has_socket = self.socket_index(node.node_hash);
        if has_socket.is_some() {
            return false;
        }
        if self.entries.len() >= self.max_peers as usize {
            return false;
        }
        let present = self.find_index(node.node_hash);
        if present.is_some() {
            return false;
        }
        self.sockets.push(node.node_hash);
        self.entries.push(PeerEntry { node, tx: Some(tx) });
        proof {
            let es = self.entries@;
            let ss = self.sockets@;
            let oes = old(self).entries@;
            let oss = old(self).sockets@;
            assert forall|i: int| 0 <= i < es.len() implies ((#[trigger] es[i]).tx is Some
                <==> ss.contains(es[i].node.node_hash)) by {
                if i < oes.len() {
                    assert(es[i] == oes[i]);
                    if oes[i].tx is Some {
                        let k = choose|k: int|
                            0 <= k < oss.len() && oss[k] == oes[i].node.node_hash;
                        assert(ss[k] == oes[i].node.node_hash);
                    }
                    if ss.contains(es[i].node.node_hash) {
                        let k = choose|k: int|
                            0 <= k < ss.len() && ss[k] == es[i].node.node_hash;
                        if k < oss.len() {
                            assert(oss.contains(oes[i].node.node_hash));
                        } else {
                            assert(ss[k] == node.node_hash);
                        }
                    }
                } else {
                    assert(es[i].node.node_hash == node.node_hash);
                    assert(ss[ss.len() - 1] == node.node_hash);
                }
            }
            assert forall|k: int| 0 <= k < ss.len() implies spec_contains_hash(es,
                #[trigger] ss[k]) by {
                if k < oss.len() {
                    let i = choose|i: int| 0 <= i < oes.len() && oes[i].node.node_hash == oss[k];
                    assert(es[i].node.node_hash == ss[k]);
                } else {
                    assert(es[es.len() - 1].node.node_hash == ss[k]);
                }
            }
        }
        true
    }

    /// Record a peer that was merely advertised: no socket, no send handle.
    /// Accepted only when the hash is new and the registry is below
    /// capacity.
    pub fn add_node(&mut self, node: Node) -> (added: bool)
        requires
            old(self).wf(),
        ensures
            final(self).wf(),
            final(self).spec_max_peers() == old(self).spec_max_peers(),
            final(self).spec_sockets() =~= old(self).spec_sockets(),
            added <==> (!spec_contains_hash(old(self).spec_entries(), node.node_hash) && old(self).spec_entries().len() < old(self).spec_max_peers()),
            added ==> final(self).spec_entries() =~= old(self).spec_entries().push(
                (PeerEntry { node, tx: None }),
            ),
            !added ==> final(self).spec_entries() =~= old(self).spec_entries(),
    {
        if self.entries.len() >= self.max_peers as usize {
            return false;
        }
        let present = self.find_index(node.node_hash);
        if present.is_some() {
            return false;
        }
        proof {
            // the new record has no socket: its hash is in neither map
            if self.sockets@.contains(node.node_hash) {
                let k = choose|k: int|
                    0 <= k < self.sockets@.len() && self.sockets@[k] == node.node_hash;
                assert(spec_contains_hash(self.entries@, node.node_hash));
            }
        }
        self.entries.push(PeerEntry { node, tx: None });
        proof {
            let es = self.entries@;
            let oes = old(self).entries@;
            let ss = self.sockets@;
            assert forall|i: int| 0 <= i < es.len() implies ((#[trigger] es[i]).tx is Some
                <==> ss.contains(es[i].node.node_hash)) by {
                if i < oes.len() {
                    assert(es[i] == oes[i]);
                }
            }
            assert forall|k: int| 0 <= k < ss.len() implies spec_contains_hash(es,
                #[trigger] ss[k]) by {
                let i = choose|i: int| 0 <= i < oes.len() && oes[i].node.node_hash == ss[k];
                assert(es[i].node.node_hash == ss[k]);
            }
        }
        true
    }

    /// Drop the peer from the registry and give up its socket marker; the
    /// caller shuts the real socket down.  Returns the removed record.
    pub fn remove_peer(&mut self, node_hash: u64) -> (r: Option<Node>)
        requires
            old(self).wf(),
        ensures
            final(self).wf(),
            final(self).spec_max_peers() == old(self).spec_max_peers(),
            !spec_contains_hash(final(self).spec_entries(), node_hash),
            !final(self).spec_sockets().contains(node_hash),
            match r {
                Some(n) => n.node_hash == node_hash && exists|i: int|
                    0 <= i < old(self).spec_entries().len() && (#[trigger] old(self).spec_entries()[i]).node == n && old(self).spec_entries()[i].node.node_hash
                        == node_hash && final(self).spec_entries() =~= old(self).spec_entries().remove(i),
                None => !spec_contains_hash(old(self).spec_entries(), node_hash) && final(self).spec_entries() =~= old(self).spec_entries(),
            },
            old(self).spec_sockets().contains(node_hash) ==> exists|k: int|
                0 <= k < old(self).spec_sockets().len() && old(self).spec_sockets()[k]
                    == node_hash && final(self).spec_sockets() =~= old(self).spec_sockets().remove(k),
            !old(self).spec_sockets().contains(node_hash) ==> final(self).spec_sockets() =~= old(self).spec_sockets(),
    {
        match self.socket_index(node_hash) {
            Some(k) => {
                self.sockets.remove(k);
                proof {
                    lemma_remove_u64_contains(old(self).sockets@, k as int);
                    assert(exists|x: int|
                        0 <= x < old(self).sockets@.len() && old(self).sockets@[x] == node_hash
                            && self.sockets@ =~= old(self).sockets@.remove(x)) by {
                        assert(old(self).sockets@[k as int] == node_hash && self.sockets@ =~= old(self).sockets@.remove(k as int));
                    }
                }
            },
            None => {},
        }
        let r = match self.find_index(node_hash) {
            Some(i) => {
                let e = self.entries.remove(i);
                proof {
                    lemma_remove_entry_contains(old(self).entries@, i as int);
                    assert(exists|x: int|
                        0 <= x < old(self).entries@.len() && (#[trigger] old(self).entries@[x]).node.node_hash == node_hash && self.entries@ =~= old(self).entries@.remove(x)) by {
                        assert(old(self).entries@[i as int].node.node_hash == node_hash
                            && self.entries@ =~= old(self).entries@.remove(i as int));
                    }
                    assert(exists|x: int|
                        0 <= x < old(self).spec_entries().len() && (#[trigger] old(self).spec_entries()[x]).node == e.node && old(self).spec_entries()[x].node.node_hash == node_hash && self.spec_entries()
                            =~= old(self).spec_entries().remove(x)) by {
                        assert((old(self).spec_entries()[i as int]).node == e.node);
                        assert(self.spec_entries() =~= old(self).spec_entries().remove(i as int));
                    }
                }
                Some(e.node)
            },
            None => None,
        };
        proof {
            let es = self.entries@;
            let ss = self.sockets@;
            let oes = old(self).entries@;
            let oss = old(self).sockets@;
            assert forall|i: int| 0 <= i < es.len() implies ((#[trigger] es[i]).tx is Some
                <==> ss.contains(es[i].node.node_hash)) by {
                let oi = entry_origin(oes, es, i, node_hash);
                assert(es[i] == oes[oi]);
                assert(es[i].node.node_hash != node_hash);
                if oes[oi].tx is Some {
                    let k = choose|k: int| 0 <= k < oss.len() && oss[k] == oes[oi].node.node_hash;
                    assert(oss[k] != node_hash);
                    assert(ss.contains(oss[k])) by {
                        socket_survives(oss, ss, k, node_hash);
                    }
                }
                if ss.contains(es[i].node.node_hash) {
                    assert(oss.contains(es[i].node.node_hash)) by {
                        let k = choose|k: int| 0 <= k < ss.len() && ss[k] == es[i].node.node_hash;
                        socket_came_from(oss, ss, k, node_hash);
                    }
                }
            }
            assert forall|k: int| 0 <= k < ss.len() implies spec_contains_hash(es,
                #[trigger] ss[k]) by {
                assert(oss.contains(ss[k]) && ss[k] != node_hash) by {
                    socket_came_from(oss, ss, k, node_hash);
                }
                let i = choose|i: int| 0 <= i < oes.len() && oes[i].node.node_hash == ss[k];
                entry_survives(oes, es, i, node_hash);
            }
        }
        r
    }

    /// Forget every peer and socket marker; the caller shuts the sockets.
    pub fn reset(&mut self)
        ensures
            final(self).wf(),
            final(self).spec_max_peers() == old(self).spec_max_peers(),
            final(self).spec_entries().len() == 0,
            final(self).spec_sockets().len() == 0,
    {
        self.entries = Vec::new();
        self.sockets = Vec::new();
    }
}

/// After removing index `k` from a socket list with unique elements, the
/// removed hash is gone and every other element survives.
proof fn lemma_remove_u64_contains(s: Seq<u64>, k: int)
    requires
        0 <= k < s.len(),
        spec_unique_u64(s),
    ensures
        spec_unique_u64(s.remove(k)),
        !s.remove(k).contains(s[k]),
        forall|x: u64| #[trigger] s.remove(k).contains(x) ==> s.contains(x),
        forall|x: u64| s.contains(x) && x != s[k] ==> #[trigger] s.remove(k).contains(x),
{
    let t = s.remove(k);
    assert forall|i: int| 0 <= i < t.len() implies (t[i] == if i < k {
        s[i]
    } else {
        s[i + 1]
    }) by {}
    assert forall|x: u64| #[trigger] t.contains(x) implies s.contains(x) by {
        let i = choose|i: int| 0 <= i < t.len() && t[i] == x;
        if i < k {
            assert(s[i] == x);
        } else {
            assert(s[i + 1] == x);
        }
    }
    assert forall|x: u64| s.contains(x) && x != s[k] implies #[trigger] t.contains(x) by {
        let i = choose|i: int| 0 <= i < s.len() && s[i] == x;
        if i < k {
            assert(t[i] == x);
        } else {
            assert(i > k);
            assert(t[i - 1] == x);
        }
    }
    if t.contains(s[k]) {
        let i = choose|i: int| 0 <= i < t.len() && t[i] == s[k];
        if i < k {
            assert(s[i] == s[k]);
        } else {
            assert(s[i + 1] == s[k]);
        }
    }
}

/// After removing index `i` from an entry list with unique hashes, the
/// removed hash is gone, uniqueness holds on, and every other entry
/// survives unchanged.
proof fn lemma_remove_entry_contains(s: Seq<PeerEntry>, i: int)
    requires
        0 <= i < s.len(),
        spec_unique_hashes(s),
    ensures
        spec_unique_hashes(s.remove(i)),
        !spec_contains_hash(s.remove(i), s[i].node.node_hash),
        forall|j: int|
            0 <= j < s.remove(i).len() ==> (#[trigger] s.remove(i)[j] == if j < i {
                s[j]
            } else {
                s[j + 1]
            }),
{
    let t = s.remove(i);
    assert forall|j: int| 0 <= j < t.len() implies (#[trigger] t[j] == if j < i {
        s[j]
    } else {
        s[j + 1]
    }) by {}
    if spec_contains_hash(t, s[i].node.node_hash) {
        let j = choose|j: int| 0 <= j < t.len() && t[j].node.node_hash == s[i].node.node_hash;
        if j < i {
            assert(s[j].node.node_hash == s[i].node.node_hash);
        } else {
            assert(s[j + 1].node.node_hash == s[i].node.node_hash);
        }
    }
}

/// The index in the old entry list of position `i` of the list with
/// `node_hash` removed (or the list unchanged when the hash was absent).
proof fn entry_origin(oes: Seq<PeerEntry>, es: Seq<PeerEntry>, i: int, node_hash: u64) -> (oi:
    int)
    requires
        0 <= i < es.len(),
        spec_unique_hashes(oes),
        es =~= oes || exists|x: int|
            0 <= x < oes.len() && oes[x].node.node_hash == node_hash && es =~= oes.remove(x),
    ensures
        0 <= oi < oes.len(),
        es[i] == oes[oi],
        (exists|x: int|
            0 <= x < oes.len() && oes[x].node.node_hash == node_hash && es =~= oes.remove(
                x,
            )) ==> es[i].node.node_hash != node_hash,
{
    if es =~= oes {
        if exists|x: int|
            0 <= x < oes.len() && oes[x].node.node_hash == node_hash && es =~= oes.remove(x) {
            let x = choose|x: int|
                0 <= x < oes.len() && oes[x].node.node_hash == node_hash && es =~= oes.remove(x);
            assert(oes.remove(x).len() < oes.len());
            assert(false);
        }
        i
    } else {
        let x = choose|x: int|
            0 <= x < oes.len() && oes[x].node.node_hash == node_hash && es =~= oes.remove(x);
        lemma_remove_entry_contains(oes, x);
        if i < x {
            i
        } else {
            i + 1
        }
    }
}

/// A surviving entry keeps its place after a removal that did not hit it.
proof fn entry_survives(oes: Seq<PeerEntry>, es: Seq<PeerEntry>, i: int, node_hash: u64)
    requires
        0 <= i < oes.len(),
        oes[i].node.node_hash != node_hash,
        spec_unique_hashes(oes),
        es =~= oes || exists|x: int|
            0 <= x < oes.len() && oes[x].node.node_hash == node_hash && es =~= oes.remove(x),
    ensures
        spec_contains_hash(es, oes[i].node.node_hash),
{
    if es =~= oes {
        assert(es[i].node.node_hash == oes[i].node.node_hash);
    } else {
        let x = choose|x: int|
            0 <= x < oes.len() && oes[x].node.node_hash == node_hash && es =~= oes.remove(x);
        lemma_remove_entry_contains(oes, x);
        if i < x {
            assert(es[i] == oes[i]);
        } else {
            assert(i > x);
            assert(es[i - 1] == oes[i]);
        }
    }
}

/// A socket marker other than the removed hash survives the removal.
proof fn socket_survives(oss: Seq<u64>, ss: Seq<u64>, k: int, node_hash: u64)
    requires
        0 <= k < oss.len(),
        oss[k] != node_hash,
        spec_unique_u64(oss),
        ss =~= oss || exists|x: int| 0 <= x < oss.len() && oss[x] == node_hash && ss =~= oss.remove(x),
    ensures
        ss.contains(oss[k]),
{
    if ss =~= oss {
        assert(ss[k] == oss[k]);
    } else {
        let x = choose|x: int| 0 <= x < oss.len() && oss[x] == node_hash && ss =~= oss.remove(x);
        lemma_remove_u64_contains(oss, x);
    }
}

/// Every socket marker after a removal already stood in the old list and is
/// not the removed hash (when a removal happened).
proof fn socket_came_from(oss: Seq<u64>, ss: Seq<u64>, k: int, node_hash: u64)
    requires
        0 <= k < ss.len(),
        spec_unique_u64(oss),
        ss =~= oss || exists|x: int| 0 <= x < oss.len() && oss[x] == node_hash && ss =~= oss.remove(x),
        ss =~= oss ==> !oss.contains(node_hash),
    ensures
        oss.contains(ss[k]),
        ss[k] != node_hash,
{
    if ss =~= oss {
        assert(oss[k] == ss[k]);
    } else {
        let x = choose|x: int| 0 <= x < oss.len() && oss[x] == node_hash && ss =~= oss.remove(x);
        lemma_remove_u64_contains(oss, x);
        assert(ss.contains(ss[k]));
        if ss[k] == node_hash {
            assert(!ss.contains(oss[x]));
        }
    }
}


/// Whether every bit of the mask is set on the record.
pub open spec fn spec_state_matches(n: Node, mask: u32) -> bool {
    n.state_code & mask == mask
}

/// How many entries carry every bit of the mask.
pub open spec fn spec_count_state(s: Seq<PeerEntry>, mask: u32) -> int
    decreases s.len(),
{
    if s.len() == 0 {
        0
    } else {
        spec_count_state(s.drop_last(), mask) + if spec_state_matches(s.last().node, mask) {
            1int
        } else {
            0int
        }
    }
}

/// How many alive entries are driven in the given sync mode.
pub open spec fn spec_count_mode(s: Seq<PeerEntry>, mode: Mode) -> int
    decreases s.len(),
{
    if s.len() == 0 {
        0
    } else {
        spec_count_mode(s.drop_last(), mode) + if spec_state_matches(s.last().node,
            crate::node::ALIVE) && s.last().node.mode == mode {
            1int
        } else {
            0int
        }
    }
}

/// The records of the entries, in registry order.
pub open spec fn spec_nodes(s: Seq<PeerEntry>) -> Seq<Node> {
    s.map(|i: int, e: PeerEntry| e.node)
}

/// The records of the entries that carry every bit of the mask, in order.
pub open spec fn spec_nodes_with_state(s: Seq<PeerEntry>, mask: u32) -> Seq<Node>
    decreases s.len(),
{
    if s.len() == 0 {
        Seq::empty()
    } else {
        spec_nodes_with_state(s.drop_last(), mask) + if spec_state_matches(s.last().node, mask) {
            seq![s.last().node]
        } else {
            Seq::empty()
        }
    }
}

/// Whether an entry of the sequence is a reconnect candidate: marked
/// disconnected and not from the boot list.
pub open spec fn spec_is_reconnect_candidate(n: Node) -> bool {
    spec_state_matches(n, crate::node::DISCONNECTED) && !n.is_from_boot_list
}

/// Relies on rand: `rand::rng().random_range(0..n)` draws a value below
/// `n`; the range is not empty, so the call cannot panic.
#[verifier::external_body]
pub(crate) fn random_below(n: usize) -> (r: usize)
    requires
        1 <= n,
    ensures
        r < n,
{
    rand::rng().random_range(0..n)
}

impl Registry {
    /// How many peers carry every bit of `state_code`.
    pub fn get_nodes_count(&self, state_code: u32) -> (c: usize)
        ensures
            c == spec_count_state(self.spec_entries(), state_code),
    {
        let s = &self.entries;
        let mut c: usize = 0;
        let mut i: usize = 0;
        proof {
            assert(s@.subrange(0, 0) =~= Seq::<PeerEntry>::empty());
        }
        while i < s.len()
            invariant
                i <= s@.len(),
                c <= i,
                c == spec_count_state(s@.subrange(0, i as int), state_code),
            decreases s@.len() - i,
        {
            proof {
                assert(s@.subrange(0, i + 1).drop_last() =~= s@.subrange(0, i as int));
                assert(s@.subrange(0, i + 1).last() == s@[i as int]);
            }
            if s[i].node.has_state(state_code) {
                c = c + 1;
            }
            i = i + 1;
        }
        proof {
            assert(s@.subrange(0, s@.len() as int) =~= s@);
        }
        c
    }

    /// How many alive peers are driven in `mode`.
    pub fn get_nodes_count_with_mode(&self, mode: Mode) -> (c: usize)
        ensures
            c == spec_count_mode(self.spec_entries(), mode),
    {
        let s = &self.entries;
        let mut c: usize = 0;
        let mut i: usize = 0;
        proof {
            assert(s@.subrange(0, 0) =~= Seq::<PeerEntry>::empty());
        }
        while i < s.len()
            invariant
                i <= s@.len(),
                c <= i,
                c == spec_count_mode(s@.subrange(0, i as int), mode),
            decreases s@.len() - i,
        {
            proof {
                assert(s@.subrange(0, i + 1).drop_last() =~= s@.subrange(0, i as int));
                assert(s@.subrange(0, i + 1).last() == s@[i as int]);
            }
            let matches_mode: bool = match (s[i].node.mode, mode) {
                (Mode::NORMAL, Mode::NORMAL) => true,
                (Mode::BACKWARD, Mode::BACKWARD) => true,
                (Mode::FORWARD, Mode::FORWARD) => true,
                (Mode::LIGHTNING, Mode::LIGHTNING) => true,
                (Mode::THUNDER, Mode::THUNDER) => true,
                _ => false,
            };
            if s[i].node.has_state(crate::node::ALIVE) && matches_mode {
                c = c + 1;
            }
            i = i + 1;
        }
        proof {
            assert(s@.subrange(0, s@.len() as int) =~= s@);
        }
        c
    }

    /// How many alive peers are driven in each sync mode, in declaration
    /// order of the modes.
    pub fn get_nodes_count_all_modes(&self) -> (r: (usize, usize, usize, usize, usize))
        ensures
            r.0 == spec_count_mode(self.spec_entries(), Mode::NORMAL),
            r.1 == spec_count_mode(self.spec_entries(), Mode::BACKWARD),
            r.2 == spec_count_mode(self.spec_entries(), Mode::FORWARD),
            r.3 == spec_count_mode(self.spec_entries(), Mode::LIGHTNING),
            r.4 == spec_count_mode(self.spec_entries(), Mode::THUNDER),
    {
        (
            self.get_nodes_count_with_mode(Mode::NORMAL),
            self.get_nodes_count_with_mode(Mode::BACKWARD),
            self.get_nodes_count_with_mode(Mode::FORWARD),
            self.get_nodes_count_with_mode(Mode::LIGHTNING),
            self.get_nodes_count_with_mode(Mode::THUNDER),
        )
    }

    /// How many peers the registry holds in all.
    pub fn get_all_nodes_count(&self) -> (c: u16)
        requires
            self.wf(),
        ensures
            c == self.spec_entries().len(),
    {
        self.entries.len() as u16
    }

    /// A copy of every record.
    pub fn get_all_nodes(&self) -> (r: Vec<Node>)
        ensures
            r@ =~= spec_nodes(self.spec_entries()),
    {
        let s = &self.entries;
        let mut out: Vec<Node> = Vec::new();
        let mut i: usize = 0;
        while i < s.len()
            invariant
                i <= s@.len(),
                out@.len() == i,
                forall|j: int| 0 <= j < i ==> out@[j] == (#[trigger] s@[j]).node,
            decreases s@.len() - i,
        {
            out.push(s[i].node);
            i = i + 1;
        }
        out
    }

    /// A copy of every record carrying every bit of the mask, in order.
    pub fn get_nodes(&self, state_code_mask: u32) -> (r: Vec<Node>)
        ensures
            r@ =~= spec_nodes_with_state(self.spec_entries(), state_code_mask),
    {
        let s = &self.entries;
        let mut out: Vec<Node> = Vec::new();
        let mut i: usize = 0;
        proof {
            assert(s@.subrange(0, 0) =~= Seq::<PeerEntry>::empty());
        }
        while i < s.len()
            invariant
                i <= s@.len(),
                out@ =~= spec_nodes_with_state(s@.subrange(0, i as int), state_code_mask),
            decreases s@.len() - i,
        {
            proof {
                assert(s@.subrange(0, i + 1).drop_last() =~= s@.subrange(0, i as int));
                assert(s@.subrange(0, i + 1).last() == s@[i as int]);
            }
            if s[i].node.has_state(state_code_mask) {
                out.push(s[i].node);
            }
            i = i + 1;
        }
        proof {
            assert(s@.subrange(0, s@.len() as int) =~= s@);
        }
        out
    }

    /// The FNV hash of a record's node identifier.
    fn hash_of_id(n: &Node) -> (r: u64)
        ensures
            r == crate::node::spec_fnv(n.node_id@),
    {
        let mut v: Vec<u8> = Vec::new();
        let mut i: usize = 0;
        while i < 36
            invariant
                i <= 36,
                n.node_id@.len() == 36,
                v@ =~= n.node_id@.subrange(0, i as int),
            decreases 36 - i,
        {
            v.push(n.node_id[i]);
            i = i + 1;
        }
        proof {
            assert(v@ =~= n.node_id@);
        }
        crate::node::calculate_hash(&v)
    }

    /// Whether some registered peer's node identifier hashes to the value.
    pub fn is_connected(&self, node_id_hash: u64) -> (r: bool)
        ensures
            r == exists|i: int|
                0 <= i < self.spec_entries().len() && crate::node::spec_fnv(
                    (#[trigger] self.spec_entries()[i]).node.node_id@,
                ) == node_id_hash,
    {
        let mut i: usize = 0;
        while i < self.entries.len()
            invariant
                i <= self.entries@.len(),
                forall|j: int|
                    0 <= j < i ==> crate::node::spec_fnv(
                        (#[trigger] self.entries@[j]).node.node_id@,
                    ) != node_id_hash,
            decreases self.entries@.len() - i,
        {
            let h = Self::hash_of_id(&self.entries[i].node);
            if h == node_id_hash {
                proof {
                    assert(crate::node::spec_fnv((self.spec_entries()[i as int]).node.node_id@)
                        == node_id_hash);
                }
                return true;
            }
            i = i + 1;
        }
        false
    }

    /// Merge a patch into the stored record, keeping the stored sync mode:
    /// the patch is first given the stored mode, then replaces the record.
    /// The registry key and the send handle stay as they were.
    pub fn update_node(&mut self, node_hash: u64, node: &mut Node)
        requires
            old(self).wf(),
        ensures
            final(self).wf(),
            final(self).spec_max_peers() == old(self).spec_max_peers(),
            final(self).spec_sockets() =~= old(self).spec_sockets(),
            !spec_contains_hash(old(self).spec_entries(), node_hash) ==> final(self).spec_entries()
                =~= old(self).spec_entries() && *final(node) == *old(node),
            spec_contains_hash(old(self).spec_entries(), node_hash) ==> exists|i: int|
                0 <= i < old(self).spec_entries().len() && (#[trigger] old(self).spec_entries()[i]).node.node_hash == node_hash && *final(node) == (Node {
                    mode: old(self).spec_entries()[i].node.mode,
                    ..*old(node)
                }) && final(self).spec_entries() =~= old(self).spec_entries().update(
                    i,
                    (PeerEntry {
                        node: (Node { node_hash, ..*final(node) }),
                        tx: old(self).spec_entries()[i].tx,
                    }),
                ),
    {
        let found = self.find_index(node_hash);
        match found {
            Some(i) => {
                node.mode = self.entries[i].node.mode;
                let stored = Node { node_hash, ..*node };
                let e = self.entries.remove(i);
                self.entries.insert(i, PeerEntry { node: stored, tx: e.tx });
                proof {
                    assert(self.entries@ =~= old(self).entries@.update(
                        i as int,
                        (PeerEntry {
                            node: (Node { node_hash, ..*node }),
                            tx: old(self).entries@[i as int].tx,
                        }),
                    ));
                    lemma_update_same_hash_wf(*old(self), *self, i as int);
                    assert(exists|x: int|
                        0 <= x < old(self).spec_entries().len() && (#[trigger] old(self).spec_entries()[x]).node.node_hash == node_hash && *node == (Node {
                            mode: old(self).spec_entries()[x].node.mode,
                            ..*old(node)
                        }) && self.spec_entries() =~= old(self).spec_entries().update(
                            x,
                            (PeerEntry {
                                node: (Node { node_hash, ..*node }),
                                tx: old(self).spec_entries()[x].tx,
                            }),
                        )) by {
                        assert((i as int) < old(self).spec_entries().len() && (old(self).spec_entries()[i as int]).node.node_hash == node_hash && *node == (Node {
                            mode: old(self).spec_entries()[i as int].node.mode,
                            ..*old(node)
                        }) && self.spec_entries() =~= old(self).spec_entries().update(
                            i as int,
                            (PeerEntry {
                                node: (Node { node_hash, ..*node }),
                                tx: old(self).spec_entries()[i as int].tx,
                            }),
                        ));
                    }
                }
            },
            None => {},
        }
    }

    /// Merge a patch into the stored record, taking the patch's sync mode
    /// too.  The registry key and the send handle stay as they were.
    pub fn update_node_with_mode(&mut self, node_hash: u64, node: &Node)
        requires
            old(self).wf(),
        ensures
            final(self).wf(),
            final(self).spec_max_peers() == old(self).spec_max_peers(),
            final(self).spec_sockets() =~= old(self).spec_sockets(),
            !spec_contains_hash(old(self).spec_entries(), node_hash) ==> final(self).spec_entries()
                =~= old(self).spec_entries(),
            spec_contains_hash(old(self).spec_entries(), node_hash) ==> exists|i: int|
                0 <= i < old(self).spec_entries().len() && (#[trigger] old(self).spec_entries()[i]).node.node_hash == node_hash && final(self).spec_entries()
                    =~= old(self).spec_entries().update(
                    i,
                    (PeerEntry {
                        node: (Node { node_hash, ..*node }),
                        tx: old(self).spec_entries()[i].tx,
                    }),
                ),
    {
        let found = self.find_index(node_hash);
        match found {
            Some(i) => {
                let stored = Node { node_hash, ..*node };
                let e = self.entries.remove(i);
                self.entries.insert(i, PeerEntry { node: stored, tx: e.tx });
                proof {
                    assert(self.entries@ =~= old(self).entries@.update(
                        i as int,
                        (PeerEntry {
                            node: (Node { node_hash, ..*node }),
                            tx: old(self).entries@[i as int].tx,
                        }),
                    ));
                    lemma_update_same_hash_wf(*old(self), *self, i as int);
                    assert(exists|x: int|
                        0 <= x < old(self).spec_entries().len() && (#[trigger] old(self).spec_entries()[x]).node.node_hash == node_hash && self.spec_entries()
                            =~= old(self).spec_entries().update(
                            x,
                            (PeerEntry {
                                node: (Node { node_hash, ..*node }),
                                tx: old(self).spec_entries()[x].tx,
                            }),
                        )) by {
                        assert((i as int) < old(self).spec_entries().len() && (old(self).spec_entries()[i as int]).node.node_hash == node_hash
                            && self.spec_entries() =~= old(self).spec_entries().update(
                            i as int,
                            (PeerEntry {
                                node: (Node { node_hash, ..*node }),
                                tx: old(self).spec_entries()[i as int].tx,
                            }),
                        ));
                    }
                }
            },
            None => {},
        }
    }

    /// Queue a frame on the peer's write channel.  A failed send is a
    /// terminal signal: the peer is dropped, as it is when the peer is
    /// unknown.  Every other peer is left exactly as it was.
    pub fn send(&mut self, node_hash: u64, msg: ChannelBuffer)
        requires
            old(self).wf(),
        ensures
            final(self).wf(),
            final(self).spec_max_peers() == old(self).spec_max_peers(),
    // an unknown peer, or one without a channel, changes nothing
            !spec_contains_hash(old(self).spec_entries(), node_hash) ==> final(self).spec_entries()
                =~= old(self).spec_entries() && final(self).spec_sockets() =~= old(
                self,
            ).spec_sockets(),
            (exists|i: int|
                0 <= i < old(self).spec_entries().len() && (#[trigger] old(
                    self,
                ).spec_entries()[i]).node.node_hash == node_hash && old(
                    self,
                ).spec_entries()[i].tx is None) ==> final(self).spec_entries() =~= old(
                self,
            ).spec_entries() && final(self).spec_sockets() =~= old(self).spec_sockets(),
    // a failed send on a live channel is terminal: the peer is dropped;
    // which outcome occurred is not observable from here
            (final(self).spec_entries() =~= old(self).spec_entries() && final(self).spec_sockets()
                =~= old(self).spec_sockets()) || (!spec_contains_hash(
                final(self).spec_entries(),
                node_hash,
            ) && !final(self).spec_sockets().contains(node_hash) && exists|i: int|
                0 <= i < old(self).spec_entries().len() && (#[trigger] old(
                    self,
                ).spec_entries()[i]).node.node_hash == node_hash && final(self).spec_entries()
                    =~= old(self).spec_entries().remove(i)),
    {
        let found = self.find_index(node_hash);
        match found {
            Some(i) => {
                let ok: bool = match &self.entries[i].tx {
                    Some(tx) => channel_try_send(tx, msg),
                    None => true,
                };
                if !ok {
                    proof {
                        crate::registry::lemma_registry_unique_hashes(*self);
                        if exists|j: int|
                            0 <= j < self.entries@.len() && (
                            #[trigger] self.entries@[j]).node.node_hash == node_hash
                                && self.entries@[j].tx is None {
                            let j = choose|j: int|
                                0 <= j < self.entries@.len() && (
                                #[trigger] self.entries@[j]).node.node_hash == node_hash
                                    && self.entries@[j].tx is None;
                            if j != i as int {
                                assert(self.entries@[j].node.node_hash
                                    != self.entries@[i as int].node.node_hash);
                            }
                        }
                    }
                    self.remove_peer(node_hash);
                }
            },
            None => {
                self.remove_peer(node_hash);
            },
        }
    }

    /// Pull a uniformly chosen reconnect candidate out of the registry: a
    /// peer marked disconnected that did not come from the boot list.  The
    /// caller attempts the reconnect and re-adds the peer.
    pub fn get_an_inactive_node(&mut self) -> (r: Option<Node>)
        requires
            old(self).wf(),
        ensures
            final(self).wf(),
            final(self).spec_max_peers() == old(self).spec_max_peers(),
            match r {
                Some(n) => spec_is_reconnect_candidate(n) && !spec_contains_hash(
                    final(self).spec_entries(),
                    n.node_hash,
                ) && exists|i: int|
                    0 <= i < old(self).spec_entries().len() && (#[trigger] old(self).spec_entries()[i]).node == n && final(self).spec_entries() =~= old(self).spec_entries().remove(i),
                None => final(self).spec_entries() =~= old(self).spec_entries() && final(self).spec_sockets() =~= old(self).spec_sockets() && (forall|i: int|
                    0 <= i < old(self).spec_entries().len()
                        ==> !spec_is_reconnect_candidate(
                        (#[trigger] old(self).spec_entries()[i]).node,
                    )),
            },
    {
        let mut cands: Vec<Node> = Vec::new();
        let mut i: usize = 0;
        while i < self.entries.len()
            invariant
                i <= self.entries@.len(),
                forall|k: int|
                    0 <= k < cands@.len() ==> spec_is_reconnect_candidate(#[trigger] cands@[k])
                        && exists|j: int|
                        0 <= j < self.entries@.len() && (#[trigger] self.entries@[j]).node
                            == cands@[k],
                forall|j: int|
                    0 <= j < i && spec_is_reconnect_candidate((#[trigger] self.entries@[j]).node)
                        ==> cands@.len() > 0,
            decreases self.entries@.len() - i,
        {
            let n = self.entries[i].node;
            if n.has_state(crate::node::DISCONNECTED) && !n.is_from_boot_list {
                cands.push(n);
            }
            i = i + 1;
        }
        if cands.len() == 0 {
            return None;
        }
        let pick: usize = random_below(cands.len());
        let chosen: Node = cands[pick];
        let removed = self.remove_peer(chosen.node_hash);
        match removed {
            Some(n) => {
                proof {
                    // the registry holds one entry per hash, so the removed
                    // record is the chosen candidate
                    let j = choose|j: int|
                        0 <= j < old(self).entries@.len() && (#[trigger] old(self).entries@[j]).node == chosen;
                    let x = choose|x: int|
                        0 <= x < old(self).spec_entries().len() && (#[trigger] old(self).spec_entries()[x]).node == n && old(self).spec_entries()[x].node.node_hash == chosen.node_hash;
                    if x != j {
                        assert(old(self).entries@[j].node.node_hash != old(self).entries@[x].node.node_hash);
                        assert(false);
                    }
                    let y = choose|y: int|
                        0 <= y < old(self).spec_entries().len() && (#[trigger] old(self).spec_entries()[y]).node.node_hash == chosen.node_hash && n
                            == old(self).spec_entries()[y].node && self.spec_entries() =~= old(self).spec_entries().remove(y);
                    assert(old(self).spec_entries()[y].node == n && self.spec_entries() =~= old(self).spec_entries().remove(y));
                }
                Some(n)
            },
            None => {
                proof {
                    let j = choose|j: int|
                        0 <= j < old(self).entries@.len() && (#[trigger] old(self).entries@[j]).node == chosen;
                    assert(spec_contains_hash(old(self).spec_entries(), chosen.node_hash));
                    assert(false);
                }
                None
            },
        }
    }

    /// A copy of a uniformly chosen alive peer, if any is alive.
    pub fn get_an_active_node(&self) -> (r: Option<Node>)
        requires
            self.wf(),
        ensures
            match r {
                Some(n) => spec_state_matches(n, crate::node::ALIVE) && exists|i: int|
                    0 <= i < self.spec_entries().len() && (#[trigger] self.spec_entries()[i]).node
                        == n,
                None => spec_count_state(self.spec_entries(), crate::node::ALIVE) == 0,
            },
    {
        let alive = self.get_nodes(crate::node::ALIVE);
        if alive.len() == 0 {
            proof {
                lemma_nodes_with_state_count(self.spec_entries(), crate::node::ALIVE);
            }
            return None;
        }
        let pick: usize = random_below(alive.len());
        let n = alive[pick];
        proof {
            lemma_nodes_with_state_members(self.spec_entries(), crate::node::ALIVE);
        }
        Some(n)
    }
}

/// Replacing an entry with one that keeps its hash and send handle keeps the
/// registry well formed.
proof fn lemma_update_same_hash_wf(older: Registry, newer: Registry, i: int)
    requires
        older.wf(),
        0 <= i < older.spec_entries().len(),
        newer.spec_entries().len() == older.spec_entries().len(),
        newer.spec_sockets() =~= older.spec_sockets(),
        newer.spec_max_peers() == older.spec_max_peers(),
        newer.spec_entries()[i].node.node_hash == older.spec_entries()[i].node.node_hash,
        newer.spec_entries()[i].tx is Some <==> older.spec_entries()[i].tx is Some,
        forall|j: int|
            0 <= j < older.spec_entries().len() && j != i ==> newer.spec_entries()[j]
                == older.spec_entries()[j],
    ensures
        newer.wf(),
{
    let ne = newer.spec_entries();
    let oe = older.spec_entries();
    assert forall|a: int, b: int| 0 <= a < b < ne.len() implies (#[trigger] ne[a]).node.node_hash
        != (#[trigger] ne[b]).node.node_hash by {
        assert(ne[a].node.node_hash == oe[a].node.node_hash);
        assert(ne[b].node.node_hash == oe[b].node.node_hash);
    }
    assert forall|a: int| 0 <= a < ne.len() implies ((#[trigger] ne[a]).tx is Some
        <==> newer.spec_sockets().contains(ne[a].node.node_hash)) by {
        assert(ne[a].node.node_hash == oe[a].node.node_hash);
        assert(ne[a].tx is Some <==> oe[a].tx is Some);
    }
    assert forall|k: int| 0 <= k < newer.spec_sockets().len() implies spec_contains_hash(
        ne,
        #[trigger] newer.spec_sockets()[k],
    ) by {
        let a = choose|a: int|
            0 <= a < oe.len() && (#[trigger] oe[a]).node.node_hash == older.spec_sockets()[k];
        assert(ne[a].node.node_hash == older.spec_sockets()[k]);
    }
}

/// Every record selected by a state mask stands in the entry list and
/// carries the mask.
proof fn lemma_nodes_with_state_members(s: Seq<PeerEntry>, mask: u32)
    ensures
        forall|k: int|
            0 <= k < spec_nodes_with_state(s, mask).len() ==> spec_state_matches(
                #[trigger] spec_nodes_with_state(s, mask)[k],
                mask,
            ) && exists|i: int| 0 <= i < s.len() && (#[trigger] s[i]).node == spec_nodes_with_state(
                s,
                mask,
            )[k],
    decreases s.len(),
{
    if s.len() == 0 {
    } else {
        lemma_nodes_with_state_members(s.drop_last(), mask);
        let t = spec_nodes_with_state(s, mask);
        let td = spec_nodes_with_state(s.drop_last(), mask);
        assert forall|k: int| 0 <= k < t.len() implies spec_state_matches(#[trigger] t[k], mask)
            && exists|i: int| 0 <= i < s.len() && (#[trigger] s[i]).node == t[k] by {
            if k < td.len() {
                assert(t[k] == td[k]);
                let i = choose|i: int|
                    0 <= i < s.drop_last().len() && (#[trigger] s.drop_last()[i]).node == td[k];
                assert(s[i].node == t[k]);
            } else {
                assert(t[k] == s.last().node);
                assert(s[s.len() - 1].node == t[k]);
            }
        }
    }
}

/// The registry cap invariant: at every observed instant a well-formed
/// registry holds at most `max_peers` peers.
pub proof fn lemma_registry_cap(r: Registry)
    requires
        r.wf(),
    ensures
        r.spec_entries().len() <= r.spec_max_peers(),
{
}

/// Registry and socket map agree: a registered peer holds a send handle
/// exactly when the socket map holds its hash, and every held socket
/// belongs to a registered peer.
pub proof fn lemma_registry_socket_consistency(r: Registry, i: int)
    requires
        r.wf(),
        0 <= i < r.spec_entries().len(),
    ensures
        (r.spec_entries()[i].tx is Some) <==> r.spec_sockets().contains(
            r.spec_entries()[i].node.node_hash,
        ),
        forall|k: int|
            0 <= k < r.spec_sockets().len() ==> spec_contains_hash(
                r.spec_entries(),
                #[trigger] r.spec_sockets()[k],
            ),
{
}

/// No peer hash appears twice in a well-formed registry.
pub proof fn lemma_registry_unique_hashes(r: Registry)
    requires
        r.wf(),
    ensures
        spec_unique_hashes(r.spec_entries()),
        spec_unique_u64(r.spec_sockets()),
{
}


impl Registry {
    /// Move a peer to a new key: the handshake promotes an inbound peer,
    /// first keyed by its endpoint, to the hash of its node identifier.
    /// The move is refused when the old key is absent or the new key is
    /// already taken; the record, its send handle and its socket marker are
    /// otherwise carried over unchanged.
    pub fn rekey_peer(&mut self, old_hash: u64, new_hash: u64) -> (ok: bool)
        requires
            old(self).wf(),
            old_hash != new_hash,
        ensures
            final(self).wf(),
            final(self).spec_max_peers() == old(self).spec_max_peers(),
            ok <==> (spec_contains_hash(old(self).spec_entries(), old_hash)
                && !spec_contains_hash(old(self).spec_entries(), new_hash)),
            !ok ==> final(self).spec_entries() =~= old(self).spec_entries() && final(self).spec_sockets() =~= old(self).spec_sockets(),
            ok ==> exists|i: int|
                0 <= i < old(self).spec_entries().len() && (#[trigger] old(self).spec_entries()[i]).node.node_hash == old_hash && final(self).spec_entries()
                    =~= old(self).spec_entries().update(
                    i,
                    (PeerEntry {
                        node: (Node { node_hash: new_hash, ..old(self).spec_entries()[i].node }),
                        tx: old(self).spec_entries()[i].tx,
                    }),
                ),
            ok && !old(self).spec_sockets().contains(old_hash) ==> final(self).spec_sockets()
                =~= old(self).spec_sockets(),
            ok && old(self).spec_sockets().contains(old_hash) ==> exists|k: int|
                0 <= k < old(self).spec_sockets().len() && old(self).spec_sockets()[k] == old_hash
                    && final(self).spec_sockets() =~= old(self).spec_sockets().update(k, new_hash),
    {
        let taken = self.find_index(new_hash);
        if taken.is_some() {
            return false;
        }
        let oi = match self.find_index(old_hash) {
            None => {
                return false;
            },
            Some(i) => i,
        };
        proof {
            // the new key has no socket either: markers belong to entries
            if self.sockets@.contains(new_hash) {
                let k = choose|k: int|
                    0 <= k < self.sockets@.len() && self.sockets@[k] == new_hash;
                assert(spec_contains_hash(self.entries@, new_hash));
            }
        }
        let e = self.entries.remove(oi);
        let moved = PeerEntry { node: Node { node_hash: new_hash, ..e.node }, tx: e.tx };
        self.entries.insert(oi, moved);
        proof {
            assert(self.entries@ =~= old(self).entries@.update(
                oi as int,
                (PeerEntry {
                    node: (Node { node_hash: new_hash, ..old(self).entries@[oi as int].node }),
                    tx: old(self).entries@[oi as int].tx,
                }),
            ));
        }
        match self.socket_index(old_hash) {
            Some(k) => {
                self.sockets.set(k, new_hash);
            },
            None => {},
        }
        proof {
            let es = self.entries@;
            let ss = self.sockets@;
            let oes = old(self).entries@;
            let oss = old(self).sockets@;
            let oi = oi as int;
            assert forall|a: int, b: int| 0 <= a < b < es.len() implies (
            #[trigger] es[a]).node.node_hash != (#[trigger] es[b]).node.node_hash by {
                if a != oi && b != oi {
                    assert(es[a] == oes[a] && es[b] == oes[b]);
                } else if a == oi {
                    assert(es[b] == oes[b]);
                    assert(!spec_contains_hash(oes, new_hash));
                    if es[b].node.node_hash == new_hash {
                        assert(oes[b].node.node_hash == new_hash);
                    }
                } else {
                    assert(es[a] == oes[a]);
                    if es[a].node.node_hash == new_hash {
                        assert(oes[a].node.node_hash == new_hash);
                    }
                }
            }
            assert forall|a: int, b: int| 0 <= a < b < ss.len() implies ss[a] != ss[b] by {
                if ss[a] == new_hash && oss[a] == ss[a] {
                    assert(spec_contains_hash(oes, new_hash));
                }
                if ss[b] == new_hash && oss[b] == ss[b] {
                    assert(spec_contains_hash(oes, new_hash));
                }
            }
            assert forall|a: int| 0 <= a < es.len() implies ((#[trigger] es[a]).tx is Some
                <==> ss.contains(es[a].node.node_hash)) by {
                if a == oi {
                    if es[a].tx is Some {
                        let k = choose|k: int| 0 <= k < oss.len() && oss[k] == old_hash;
                        assert(ss[k] == new_hash);
                    }
                    if ss.contains(new_hash) {
                        let k = choose|k: int| 0 <= k < ss.len() && ss[k] == new_hash;
                        if ss[k] == oss[k] {
                            assert(spec_contains_hash(oes, new_hash));
                        } else {
                            assert(oss[k] == old_hash);
                            assert(oes[oi].tx is Some);
                        }
                    }
                } else {
                    assert(es[a] == oes[a]);
                    assert(es[a].node.node_hash != old_hash);
                    assert(es[a].node.node_hash != new_hash) by {
                        if es[a].node.node_hash == new_hash {
                            assert(spec_contains_hash(oes, new_hash));
                        }
                    }
                    if oes[a].tx is Some {
                        let k = choose|k: int|
                            0 <= k < oss.len() && oss[k] == oes[a].node.node_hash;
                        assert(ss[k] == oss[k]);
                    }
                    if ss.contains(es[a].node.node_hash) {
                        let k = choose|k: int|
                            0 <= k < ss.len() && ss[k] == es[a].node.node_hash;
                        assert(oss[k] == ss[k]);
                    }
                }
            }
            assert forall|k: int| 0 <= k < ss.len() implies spec_contains_hash(es,
                #[trigger] ss[k]) by {
                if ss[k] == oss[k] {
                    let a = choose|a: int| 0 <= a < oes.len() && oes[a].node.node_hash == oss[k];
                    assert(oss[k] != old_hash || a == oi) by {
                        if oss[k] == old_hash && a != oi {
                            assert(oes[a].node.node_hash == oes[oi].node.node_hash);
                        }
                    }
                    if a == oi {
                        assert(oss[k] == old_hash);
                        // this marker would have been replaced
                        assert(false) by {
                            assert(ss[k] == oss[k]);
                            if !oss.contains(old_hash) {
                                assert(oss[k] != old_hash);
                            }
                        }
                    } else {
                        assert(es[a].node.node_hash == ss[k]);
                    }
                } else {
                    assert(ss[k] == new_hash);
                    assert(es[oi].node.node_hash == new_hash);
                }
            }
        }
        true
    }

    /// The capacity the registry was built with.
    pub fn max_peers_value(&self) -> (r: u16)
        ensures
            r == self.spec_max_peers(),
    {
        self.max_peers
    }
}

/// A state count never exceeds the number of entries.
pub proof fn lemma_count_state_le_len(s: Seq<PeerEntry>, mask: u32)
    ensures
        0 <= spec_count_state(s, mask) <= s.len(),
    decreases s.len(),
{
    if s.len() == 0 {
    } else {
        lemma_count_state_le_len(s.drop_last(), mask);
    }
}


/// The selection by a state mask has exactly as many records as the mask
/// counts.
proof fn lemma_nodes_with_state_count(s: Seq<PeerEntry>, mask: u32)
    ensures
        spec_nodes_with_state(s, mask).len() == spec_count_state(s, mask),
    decreases s.len(),
{
    if s.len() == 0 {
    } else {
        lemma_nodes_with_state_count(s.drop_last(), mask);
    }
}

} // verus!

//! Peers as the registry sees them.
//!
//! A peer record is a plain value: identity, endpoint, state bits, sync
//! mode and the sync-related counters.  The send half of the peer's write
//! channel is kept beside the record by the registry, not inside it, so a
//! record can be copied out freely as a snapshot.

use vstd::prelude::*;

verus! {

/// State bit: a TCP connection to the peer is open.
pub const CONNECTED: u32 = 1;

/// State bit: the handshake completed; implies a connection is open.
pub const ALIVE: u32 = 2;

/// State bit: the peer is known but currently unconnected.
pub const DISCONNECTED: u32 = 4;

/// State bit: this side initiated the connection.
pub const ISSERVER: u32 = 8;

/// The header-sync mode a peer is driven in.
#[derive(Clone, Copy, Debug, PartialEq, Eq, Structural)]
pub enum Mode {
    NORMAL,
    BACKWARD,
    FORWARD,
    LIGHTNING,
    THUNDER,
}

/// A peer's endpoint: address bytes, port, and which side dialed.
#[derive(Clone, Copy, Debug)]
pub struct IpAddr {
    pub ip: [u8; 8],
    pub port: u32,
    pub is_server: bool,
}

/// A peer record; a plain copyable value.
#[derive(Clone, Copy, Debug)]
pub struct Node {
    pub node_hash: u64,
    pub node_id: [u8; 36],
    pub ip_addr: IpAddr,
    pub is_from_boot_list: bool,
    pub state_code: u32,
    pub mode: Mode,
    pub net_id: u32,
    pub current_total_difficulty: u128,
    pub target_total_difficulty: u128,
    pub requested_block_num: u64,
    pub last_request_num: u64,
    pub last_request_timestamp: u64,
    pub reputation: u64,
}

impl Node {
    /// A blank record: zero identity, no state bits, normal mode.
    pub fn new() -> (r: Node)
        ensures
            r.node_hash == 0,
            r.node_id@ =~= Seq::new(36, |i: int| 0u8),
            r.ip_addr.ip@ =~= Seq::new(8, |i: int| 0u8),
            r.ip_addr.port == 0,
            r.ip_addr.is_server == false,
            r.is_from_boot_list == false,
            r.state_code == 0,
            r.mode == Mode::NORMAL,
            r.net_id == 0,
            r.current_total_difficulty == 0,
            r.target_total_difficulty == 0,
            r.requested_block_num == 0,
            r.last_request_num == 0,
            r.last_request_timestamp == 0,
            r.reputation == 0,
    {
        Node {
            node_hash: 0,
            node_id: [0; 36],
            ip_addr: IpAddr { ip: [0; 8], port: 0, is_server: false },
            is_from_boot_list: false,
            state_code: 0,
            mode: Mode::NORMAL,
            net_id: 0,
            current_total_difficulty: 0,
            target_total_difficulty: 0,
            requested_block_num: 0,
            last_request_num: 0,
            last_request_timestamp: 0,
            reputation: 0,
        }
    }

    /// A record freshly built from its identity and endpoint.
    pub fn new_with_parts(node_id: [u8; 36], ip: [u8; 8], port: u32) -> (r: Node)
        ensures
            r == (Node {
                node_hash: 0u64,
                node_id,
                ip_addr: (IpAddr { ip, port, is_server: false }),
                is_from_boot_list: false,
                state_code: 0u32,
                mode: Mode::NORMAL,
                net_id: 0u32,
                current_total_difficulty: 0u128,
                target_total_difficulty: 0u128,
                requested_block_num: 0u64,
                last_request_num: 0u64,
                last_request_timestamp: 0u64,
                reputation: 0u64,
            }),
    {
        let mut n = Node::new();
        n.node_id = node_id;
        n.ip_addr.ip = ip;
        n.ip_addr.port = port;
        n
    }

    /// Raise the peer's reputation, saturating at the top of the range.
    pub fn inc_reputation(&mut self, amount: u64)
        ensures
            final(self).reputation == if old(self).reputation + amount > u64::MAX {
                u64::MAX as int
            } else {
                old(self).reputation + amount
            },
            *final(self) == (Node { reputation: final(self).reputation, ..*old(self) }),
    {
        if self.reputation <= u64::MAX - amount {
            self.reputation = self.reputation + amount;
        } else {
            self.reputation = u64::MAX;
        }
    }

    /// Whether every bit of `mask` is set in the peer's state.
    pub fn has_state(&self, mask: u32) -> (r: bool)
        ensures
            r == (self.state_code & mask == mask),
    {
        self.state_code & mask == mask
    }
}

/// The offset basis of the 64-bit FNV-1a hash.
pub const FNV_OFFSET: u64 = 0xcbf2_9ce4_8422_2325;

/// The prime of the 64-bit FNV-1a hash.
pub const FNV_PRIME: u64 = 0x100_0000_01b3;

/// FNV-1a over a byte sequence, from an accumulator.
pub open spec fn spec_fnv_from(acc: u64, s: Seq<u8>) -> u64
    decreases s.len(),
{
    if s.len() == 0 {
        acc
    } else {
        spec_fnv_from(vstd::wrapping::u64_specs::wrapping_mul(acc ^ (s[0] as u64), FNV_PRIME),
            s.skip(1))
    }
}

/// The 64-bit FNV-1a hash of a byte sequence.
pub open spec fn spec_fnv(s: Seq<u8>) -> u64 {
    spec_fnv_from(FNV_OFFSET, s)
}

/// The registry key derived from identity bytes: a 64-bit FNV-1a hash.
/// Outbound peers are keyed by their node identifier; inbound peers by
/// their endpoint bytes joined with the local address.
pub fn calculate_hash(data: &Vec<u8>) -> (r: u64)
    ensures
        r == spec_fnv(data@),
{
    let mut acc: u64 = FNV_OFFSET;
    let mut i: usize = 0;
    proof {
        assert(data@.skip(0) =~= data@);
    }
    while i < data.len()
        invariant
            i <= data@.len(),
            spec_fnv_from(acc, data@.skip(i as int)) == spec_fnv(data@),
        decreases data@.len() - i,
    {
        proof {
            assert(data@.skip(i as int).skip(1) =~= data@.skip(i as int + 1));
        }
        acc = (acc ^ (data[i] as u64)).wrapping_mul(FNV_PRIME);
        i = i + 1;
    }
    proof {
        assert(data@.skip(i as int) =~= Seq::<u8>::empty());
    }
    acc
}


/// The registry key of a node identifier.
pub fn id_hash(node_id: &[u8; 36]) -> (r: u64)
    ensures
        r == spec_fnv(node_id@),
{
    let mut v: Vec<u8> = Vec::new();
    let mut i: usize = 0;
    while i < 36
        invariant
            i <= 36,
            node_id@.len() == 36,
            v@ =~= node_id@.subrange(0, i as int),
        decreases 36 - i,
    {
        v.push(node_id[i]);
        i = i + 1;
    }
    proof {
        assert(v@ =~= node_id@);
    }
    calculate_hash(&v)
}

} // verus!

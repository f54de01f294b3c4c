//! Decisions of the network runtime's connection lifecycle.
//!
//! The accept loop, the outbound connector and the periodic tasks perform
//! their socket work outside the library; the admission and selection rules
//! they act on live here, over the registry and plain endpoint values.

use vstd::prelude::*;
use crate::node::{Node, ALIVE, DISCONNECTED};
use crate::registry::{
    Registry, spec_contains_hash, spec_count_state, spec_is_reconnect_candidate,
};

verus! {

/// Whether an address stands on the blacklist.
pub open spec fn spec_blacklisted(list: Seq<[u8; 8]>, ip: [u8; 8]) -> bool {
    exists|i: int| 0 <= i < list.len() && (#[trigger] list[i])@ == ip@
}

/// Whether an address stands on the blacklist.
pub fn is_blacklisted(list: &Vec<[u8; 8]>, ip: &[u8; 8]) -> (r: bool)
    ensures
        r == spec_blacklisted(list@, *ip),
{
    let mut i: usize = 0;
    while i < list.len()
        invariant
            i <= list@.len(),
            forall|j: int| 0 <= j < i ==> (#[trigger] list@[j])@ !~= ip@,
        decreases list@.len() - i,
    {
        let cand = &list[i];
        let mut k: usize = 0;
        let mut same: bool = true;
        while k < 8
            invariant
                k <= 8,
                cand@.len() == 8,
                ip@.len() == 8,
                same == (forall|t: int| 0 <= t < k ==> cand@[t] == ip@[t]),
            decreases 8 - k,
        {
            if cand[k] != ip[k] {
                same = false;
            }
            k = k + 1;
        }
        if same {
            proof {
                assert(cand@ =~= ip@);
            }
            return true;
        }
        i = i + 1;
    }
    false
}

/// Whether an inbound connection is admitted: the alive count is below the
/// peer cap and the remote address is not blacklisted.
pub fn admit_inbound(registry: &Registry, ip_black_list: &Vec<[u8; 8]>, peer_ip: &[u8; 8]) -> (r:
    bool)
    ensures
        r == (spec_count_state(registry.spec_entries(), ALIVE) < registry.spec_max_peers()
            && !spec_blacklisted(ip_black_list@, *peer_ip)),
{
    let alive: usize = registry.get_nodes_count(ALIVE);
    proof {
        crate::registry::lemma_count_state_le_len(registry.spec_entries(), ALIVE);
    }
    alive < registry.max_peers_value() as usize && !is_blacklisted(ip_black_list, peer_ip)
}

/// Prepare an outbound connection to a known identity: a peer already
/// registered and marked exactly disconnected is removed first and the dial
/// proceeds; an unknown identity proceeds directly; any other state skips
/// the dial.
pub fn prepare_outbound(registry: &mut Registry, node_hash: u64) -> (proceed: bool)
    requires
        old(registry).wf(),
    ensures
        final(registry).wf(),
        final(registry).spec_max_peers() == old(registry).spec_max_peers(),
        proceed <==> (!spec_contains_hash(old(registry).spec_entries(), node_hash) || exists|i:
            int|
            0 <= i < old(registry).spec_entries().len() && (#[trigger] old(registry).spec_entries()[i]).node.node_hash == node_hash && old(registry).spec_entries()[i].node.state_code == DISCONNECTED),
        proceed ==> !spec_contains_hash(final(registry).spec_entries(), node_hash),
        !proceed ==> final(registry).spec_entries() =~= old(registry).spec_entries() && final(registry).spec_sockets() =~= old(registry).spec_sockets(),
{
    match registry.get_node(node_hash) {
        Some(n) => {
            if n.state_code == DISCONNECTED {
                proof {
                    let i = choose|i: int|
                        0 <= i < registry.spec_entries().len() && (
                        #[trigger] registry.spec_entries()[i]).node == n
                            && registry.spec_entries()[i].node.node_hash == node_hash;
                    assert(registry.spec_entries()[i].node.state_code == DISCONNECTED);
                }
                registry.remove_peer(node_hash);
                true
            } else {
                proof {
                    if exists|i: int|
                        0 <= i < registry.spec_entries().len() && (
                        #[trigger] registry.spec_entries()[i]).node.node_hash == node_hash
                            && registry.spec_entries()[i].node.state_code == DISCONNECTED {
                        let i = choose|i: int|
                            0 <= i < registry.spec_entries().len() && (
                            #[trigger] registry.spec_entries()[i]).node.node_hash == node_hash
                                && registry.spec_entries()[i].node.state_code == DISCONNECTED;
                        let j = choose|j: int|
                            0 <= j < registry.spec_entries().len() && (
                            #[trigger] registry.spec_entries()[j]).node == n
                                && registry.spec_entries()[j].node.node_hash == node_hash;
                        crate::registry::lemma_registry_unique_hashes(*registry);
                        if i != j {
                            assert(registry.spec_entries()[i].node.node_hash
                                != registry.spec_entries()[j].node.node_hash);
                        }
                    }
                }
                false
            }
        },
        None => true,
    }
}

/// Whether the periodic boot task should redial a boot node: it is either
/// unknown to the registry or marked exactly disconnected.
pub fn should_reconnect_boot(registry: &Registry, boot_hash: u64) -> (r: bool)
    requires
        registry.wf(),
    ensures
        r == (!spec_contains_hash(registry.spec_entries(), boot_hash) || exists|i: int|
            0 <= i < registry.spec_entries().len() && (#[trigger] registry.spec_entries()[i]).node.node_hash
                == boot_hash && registry.spec_entries()[i].node.state_code == DISCONNECTED),
{
    match registry.get_node(boot_hash) {
        Some(n) => {
            if n.state_code == DISCONNECTED {
                proof {
                    let i = choose|i: int|
                        0 <= i < registry.spec_entries().len() && (
                        #[trigger] registry.spec_entries()[i]).node == n
                            && registry.spec_entries()[i].node.node_hash == boot_hash;
                    assert(registry.spec_entries()[i].node.state_code == DISCONNECTED);
                }
                true
            } else {
                proof {
                    if exists|i: int|
                        0 <= i < registry.spec_entries().len() && (
                        #[trigger] registry.spec_entries()[i]).node.node_hash == boot_hash
                            && registry.spec_entries()[i].node.state_code == DISCONNECTED {
                        let i = choose|i: int|
                            0 <= i < registry.spec_entries().len() && (
                            #[trigger] registry.spec_entries()[i]).node.node_hash == boot_hash
                                && registry.spec_entries()[i].node.state_code == DISCONNECTED;
                        let j = choose|j: int|
                            0 <= j < registry.spec_entries().len() && (
                            #[trigger] registry.spec_entries()[j]).node == n
                                && registry.spec_entries()[j].node.node_hash == boot_hash;
                        crate::registry::lemma_registry_unique_hashes(*registry);
                        if i != j {
                            assert(registry.spec_entries()[i].node.node_hash
                                != registry.spec_entries()[j].node.node_hash);
                        }
                    }
                }
                false
            }
        },
        None => true,
    }
}

/// One tick of the peer-fill task: while not restricted to boot nodes and
/// the alive count is below the cap, pull one reconnect candidate that is
/// neither this node itself nor blacklisted.  The caller dials the returned
/// peer and re-adds it on success.
pub fn peer_fill_candidate(
    registry: &mut Registry,
    sync_from_boot_nodes_only: bool,
    local_id_hash: u64,
    ip_black_list: &Vec<[u8; 8]>,
) -> (r: Option<Node>)
    requires
        old(registry).wf(),
    ensures
        final(registry).wf(),
        final(registry).spec_max_peers() == old(registry).spec_max_peers(),
        match r {
            Some(n) => {
                &&& spec_is_reconnect_candidate(n)
                &&& crate::node::spec_fnv(n.node_id@) != local_id_hash
                &&& !spec_blacklisted(ip_black_list@, n.ip_addr.ip)
                &&& !spec_contains_hash(final(registry).spec_entries(), n.node_hash)
                &&& exists|i: int|
                    0 <= i < old(registry).spec_entries().len() && (#[trigger] old(registry).spec_entries()[i]).node == n && final(registry).spec_entries() =~= old(registry).spec_entries().remove(i)
            },
            None => true,
        },
        sync_from_boot_nodes_only ==> r is None && final(registry).spec_entries() =~= old(registry).spec_entries(),
        // while the pool holds only acceptable candidates, a tick below the
        // cap owes one dial
        (!sync_from_boot_nodes_only && spec_count_state(old(registry).spec_entries(), ALIVE) < old(registry).spec_max_peers() && (exists|i: int|
            0 <= i < old(registry).spec_entries().len() && spec_is_reconnect_candidate(
                (#[trigger] old(registry).spec_entries()[i]).node,
            )) && (forall|i: int|
            0 <= i < old(registry).spec_entries().len() && spec_is_reconnect_candidate(
                (#[trigger] old(registry).spec_entries()[i]).node,
            ) ==> crate::node::spec_fnv(old(registry).spec_entries()[i].node.node_id@)
                != local_id_hash && !spec_blacklisted(
                ip_black_list@,
                old(registry).spec_entries()[i].node.ip_addr.ip,
            ))) ==> r is Some,
        // the registry changes only by the one drawn candidate leaving it
        r is None ==> final(registry).spec_entries() =~= old(registry).spec_entries() || exists|i:
            int|
            0 <= i < old(registry).spec_entries().len() && spec_is_reconnect_candidate(
                (#[trigger] old(registry).spec_entries()[i]).node,
            ) && final(registry).spec_entries() =~= old(registry).spec_entries().remove(i),
{
    if sync_from_boot_nodes_only {
        return None;
    }
    let alive: usize = registry.get_nodes_count(ALIVE);
    proof {
        crate::registry::lemma_count_state_le_len(registry.spec_entries(), ALIVE);
    }
    if alive >= registry.max_peers_value() as usize {
        return None;
    }
    match registry.get_an_inactive_node() {
        Some(n) => {
            proof {
                let i = choose|i: int|
                    0 <= i < old(registry).spec_entries().len() && (#[trigger] old(registry).spec_entries()[i]).node == n && registry.spec_entries() =~= old(registry).spec_entries().remove(i);
                assert(spec_is_reconnect_candidate(old(registry).spec_entries()[i].node));
            }
            let cand_hash = crate::node::id_hash(&n.node_id);
            if cand_hash != local_id_hash && !is_blacklisted(ip_black_list, &n.ip_addr.ip) {
                Some(n)
            } else {
                None
            }
        },
        None => None,
    }
}

} // verus!

use std::sync::mpsc::sync_channel;
use unity_p2p_core::codec::{
    decode, encode, ChannelBuffer, DecodeResult, Head, ACTION_HANDSHAKEREQ, MODULE_P2P,
    VERSION_V0,
};
use unity_p2p_core::handler::{
    active_nodes_receive_res, encode_active_nodes, encode_handshake_req, encode_handshake_res,
    handle, handshake_receive_req, handshake_receive_res, parse_active_nodes,
    parse_handshake_req, select_active_peers, AdvertisedPeer, DispatchOutcome, HandshakeReq,
};
use unity_p2p_core::node::{calculate_hash, id_hash, Mode, Node, ALIVE, CONNECTED, DISCONNECTED};
use unity_p2p_core::registry::Registry;
use unity_p2p_core::runtime::{
    admit_inbound, is_blacklisted, peer_fill_candidate, prepare_outbound, should_reconnect_boot,
};

fn frame(ver: u8, ctrl: u8, action: u8, body: Vec<u8>) -> ChannelBuffer {
    let len = body.len() as u32;
    ChannelBuffer { head: Head { ver, ctrl, action, len }, body }
}

fn connected_node(hash: u64, state: u32) -> Node {
    let mut n = Node::new();
    n.node_hash = hash;
    n.state_code = state;
    n
}

#[test]
fn codec_round_trip() {
    let f = frame(0, 0, 1, vec![0xDE, 0xAD]);
    let bytes = encode(&f);
    assert_eq!(bytes.len(), 13);
    match decode(&bytes) {
        DecodeResult::Frame(g, consumed) => {
            assert_eq!(consumed, 13);
            assert_eq!(g.head, f.head);
            assert_eq!(g.body, f.body);
        }
        _ => panic!("expected a whole frame"),
    }
}

#[test]
fn codec_incomplete_input() {
    let f = frame(0, 1, 3, vec![9; 100]);
    let mut bytes = encode(&f);
    bytes.truncate(50);
    assert!(matches!(decode(&bytes), DecodeResult::Incomplete));
    let short = vec![1u8, 2, 3];
    assert!(matches!(decode(&short), DecodeResult::Incomplete));
}

#[test]
fn codec_rejects_oversized_length() {
    // header declaring a body of 0xFF000000 bytes, above the 16 MiB cap
    let bytes = vec![0u8, 0, 0, 0xFF, 0, 0, 0, 0, 0, 0, 0];
    assert!(matches!(decode(&bytes), DecodeResult::Oversized));
}

#[test]
fn registry_cap_rejects_third_peer() {
    let mut reg = Registry::new(2);
    let (tx_a, _rx_a) = sync_channel(8);
    let (tx_b, _rx_b) = sync_channel(8);
    let (tx_c, _rx_c) = sync_channel(8);
    assert!(reg.add_peer(connected_node(1, CONNECTED | ALIVE), tx_a));
    assert!(reg.add_peer(connected_node(2, CONNECTED | ALIVE), tx_b));
    let alive_before = reg.get_nodes_count(ALIVE);
    assert!(!reg.add_peer(connected_node(3, CONNECTED | ALIVE), tx_c));
    assert_eq!(reg.get_nodes_count(ALIVE), alive_before);
    assert_eq!(reg.get_all_nodes_count(), 2);
}

#[test]
fn registry_rejects_duplicate_hash() {
    let mut reg = Registry::new(10);
    let (tx_a, _rx_a) = sync_channel(8);
    let (tx_b, _rx_b) = sync_channel(8);
    assert!(reg.add_peer(connected_node(7, CONNECTED), tx_a));
    assert!(!reg.add_peer(connected_node(7, CONNECTED), tx_b));
    assert!(!reg.add_node(connected_node(7, DISCONNECTED)));
    assert_eq!(reg.get_all_nodes_count(), 1);
}

#[test]
fn registry_update_preserves_mode() {
    let mut reg = Registry::new(4);
    let mut stored = connected_node(5, CONNECTED);
    stored.mode = Mode::BACKWARD;
    assert!(reg.add_node(stored));
    let mut patch = connected_node(5, CONNECTED | ALIVE);
    patch.mode = Mode::FORWARD;
    reg.update_node(5, &mut patch);
    // the stored sync mode wins over the patch's
    assert!(matches!(patch.mode, Mode::BACKWARD));
    let read_back = reg.get_node(5).unwrap();
    assert!(matches!(read_back.mode, Mode::BACKWARD));
    assert_eq!(read_back.state_code, CONNECTED | ALIVE);
}

#[test]
fn send_failure_drops_the_peer() {
    let mut reg = Registry::new(4);
    let (tx, rx) = sync_channel(1);
    assert!(reg.add_peer(connected_node(9, CONNECTED | ALIVE), tx));
    drop(rx);
    // the receiver is gone, so the send fails and the peer is removed
    reg.send(9, ChannelBuffer::new());
    assert!(reg.get_node(9).is_none());
}

#[test]
fn send_success_keeps_the_peer() {
    let mut reg = Registry::new(4);
    let (tx, rx) = sync_channel(4);
    assert!(reg.add_peer(connected_node(9, CONNECTED | ALIVE), tx));
    reg.send(9, frame(0, 0, 3, vec![1, 2]));
    assert!(reg.get_node(9).is_some());
    let got = rx.recv().unwrap();
    assert_eq!(got.head.action, 3);
    assert_eq!(got.body, vec![1, 2]);
}

#[test]
fn peer_fill_picks_one_candidate() {
    let mut reg = Registry::new(8);
    for h in [11u64, 12, 13] {
        let mut n = connected_node(h, DISCONNECTED);
        n.node_id[0] = h as u8;
        assert!(reg.add_node(n));
    }
    let blacklist: Vec<[u8; 8]> = Vec::new();
    let picked = peer_fill_candidate(&mut reg, false, 0, &blacklist);
    let n = picked.expect("one reconnect candidate");
    assert_eq!(n.state_code, DISCONNECTED);
    assert!(!n.is_from_boot_list);
    // the candidate left the registry; a reconnect will re-add it
    assert!(reg.get_node(n.node_hash).is_none());
    assert_eq!(reg.get_all_nodes_count(), 2);
}

#[test]
fn peer_fill_respects_boot_only_flag() {
    let mut reg = Registry::new(8);
    assert!(reg.add_node(connected_node(21, DISCONNECTED)));
    let blacklist: Vec<[u8; 8]> = Vec::new();
    assert!(peer_fill_candidate(&mut reg, true, 0, &blacklist).is_none());
    assert_eq!(reg.get_all_nodes_count(), 1);
}

#[test]
fn inbound_admission_checks_cap_and_blacklist() {
    let mut reg = Registry::new(1);
    let blacklist: Vec<[u8; 8]> = vec![[9, 9, 9, 9, 0, 0, 0, 0]];
    assert!(admit_inbound(&reg, &blacklist, &[1, 2, 3, 4, 0, 0, 0, 0]));
    assert!(!admit_inbound(&reg, &blacklist, &[9, 9, 9, 9, 0, 0, 0, 0]));
    assert!(is_blacklisted(&blacklist, &[9, 9, 9, 9, 0, 0, 0, 0]));
    let (tx, _rx) = sync_channel(1);
    assert!(reg.add_peer(connected_node(2, ALIVE | CONNECTED), tx));
    assert!(!admit_inbound(&reg, &blacklist, &[1, 2, 3, 4, 0, 0, 0, 0]));
}

#[test]
fn outbound_prepare_replaces_disconnected_peers() {
    let mut reg = Registry::new(8);
    assert!(reg.add_node(connected_node(31, DISCONNECTED)));
    assert!(reg.add_node(connected_node(32, CONNECTED | ALIVE)));
    assert!(prepare_outbound(&mut reg, 31));
    assert!(reg.get_node(31).is_none());
    assert!(!prepare_outbound(&mut reg, 32));
    assert!(prepare_outbound(&mut reg, 99));
    assert!(should_reconnect_boot(&reg, 31));
    assert!(!should_reconnect_boot(&reg, 32));
}

#[test]
fn handshake_req_body_round_trip() {
    let req = HandshakeReq {
        node_id: [7; 36],
        net_id: 256,
        ip: [10, 0, 0, 1, 0, 0, 0, 0],
        port: 30303,
        revision: b"r1".to_vec(),
    };
    let body = encode_handshake_req(&req);
    assert_eq!(body.len(), 55);
    let parsed = parse_handshake_req(&body).expect("well-formed body");
    assert_eq!(parsed.node_id, [7; 36]);
    assert_eq!(parsed.net_id, 256);
    assert_eq!(parsed.ip, [10, 0, 0, 1, 0, 0, 0, 0]);
    assert_eq!(parsed.port, 30303);
    assert_eq!(parsed.revision, b"r1".to_vec());
    let mut broken = body.clone();
    broken.pop();
    assert!(parse_handshake_req(&broken).is_none());
}

#[test]
fn handshake_promotes_peer_on_matching_net() {
    let mut reg = Registry::new(4);
    let (tx, _rx) = sync_channel(8);
    let mut peer = connected_node(41, CONNECTED);
    assert!(reg.add_peer(peer, tx));
    let req_body = encode_handshake_req(&HandshakeReq {
        node_id: [3; 36],
        net_id: 77,
        ip: [0; 8],
        port: 1,
        revision: Vec::new(),
    });
    let f = frame(VERSION_V0, MODULE_P2P, ACTION_HANDSHAKEREQ, req_body);
    handshake_receive_req(&mut reg, 77, &b"r1".to_vec(), &mut peer, &f);
    assert_eq!(peer.state_code, CONNECTED | ALIVE);
    assert_eq!(peer.node_id, [3; 36]);
    // the peer moved from its endpoint key to its identity key
    assert_eq!(peer.node_hash, id_hash(&[3; 36]));
    assert!(reg.get_node(41).is_none());
    assert!(reg.get_node(id_hash(&[3; 36])).is_some());
}

#[test]
fn handshake_with_foreign_net_drops_peer() {
    let mut reg = Registry::new(4);
    let (tx, _rx) = sync_channel(8);
    let mut peer = connected_node(42, CONNECTED);
    assert!(reg.add_peer(peer, tx));
    let req_body = encode_handshake_req(&HandshakeReq {
        node_id: [3; 36],
        net_id: 99,
        ip: [0; 8],
        port: 1,
        revision: Vec::new(),
    });
    let f = frame(VERSION_V0, MODULE_P2P, ACTION_HANDSHAKEREQ, req_body);
    handshake_receive_req(&mut reg, 77, &Vec::new(), &mut peer, &f);
    assert_eq!(peer.state_code, CONNECTED);
    assert!(reg.get_node(42).is_none());
}

#[test]
fn active_nodes_body_round_trip() {
    let peers = vec![
        AdvertisedPeer { node_id: [1; 36], ip: [1; 8], port: 100 },
        AdvertisedPeer { node_id: [2; 36], ip: [2; 8], port: 200 },
    ];
    let body = encode_active_nodes(&peers);
    assert_eq!(body.len(), 1 + 48 * 2);
    let parsed = parse_active_nodes(&body).expect("well-formed body");
    assert_eq!(parsed.len(), 2);
    assert_eq!(parsed[0].node_id, [1; 36]);
    assert_eq!(parsed[0].port, 100);
    assert_eq!(parsed[1].ip, [2; 8]);
    assert_eq!(parsed[1].port, 200);
    assert!(parse_active_nodes(&body[..body.len() - 1].to_vec()).is_none());
}

#[test]
fn external_frames_come_back_to_the_caller() {
    let mut reg = Registry::new(4);
    let local = Node::new();
    let mut peer = connected_node(50, CONNECTED | ALIVE);
    let f = frame(0, 1, 3, vec![0xAB]);
    match handle(&mut reg, &local, 7, &Vec::new(), &mut peer, f) {
        DispatchOutcome::External(g) => {
            assert_eq!(g.body, vec![0xAB]);
            assert_eq!(g.head.action, 3);
        }
        DispatchOutcome::Consumed => panic!("an external frame must come back"),
    }
    let ping = frame(0, 0, 3, Vec::new());
    assert!(matches!(
        handle(&mut reg, &local, 7, &Vec::new(), &mut peer, ping),
        DispatchOutcome::Consumed
    ));
}

#[test]
fn fnv_hash_is_deterministic() {
    let a = calculate_hash(&b"36-byte-node-identifier-for-the-hash".to_vec());
    let b = calculate_hash(&b"36-byte-node-identifier-for-the-hash".to_vec());
    assert_eq!(a, b);
    let c = calculate_hash(&b"another-identifier".to_vec());
    assert_ne!(a, c);
    let mut id = [0u8; 36];
    for (i, x) in b"36-byte-node-identifier-for-the-hash".iter().enumerate() {
        id[i] = *x;
    }
    assert_eq!(id_hash(&id), a);
}

#[test]
fn counts_and_views_follow_state_bits() {
    let mut reg = Registry::new(8);
    let mut a = connected_node(71, CONNECTED | ALIVE);
    a.mode = Mode::NORMAL;
    let mut b = connected_node(72, CONNECTED | ALIVE);
    b.mode = Mode::BACKWARD;
    let c = connected_node(73, DISCONNECTED);
    assert!(reg.add_node(a));
    assert!(reg.add_node(b));
    assert!(reg.add_node(c));
    assert_eq!(reg.get_nodes_count(ALIVE), 2);
    assert_eq!(reg.get_nodes_count(DISCONNECTED), 1);
    assert_eq!(reg.get_nodes_count_with_mode(Mode::BACKWARD), 1);
    assert_eq!(reg.get_nodes_count_all_modes(), (1, 1, 0, 0, 0));
    assert_eq!(reg.get_all_nodes().len(), 3);
    assert_eq!(reg.get_nodes(ALIVE).len(), 2);
    let picked = reg.get_an_active_node().expect("an alive peer");
    assert_eq!(picked.state_code & ALIVE, ALIVE);
    reg.reset();
    assert_eq!(reg.get_all_nodes_count(), 0);
    assert!(reg.get_an_active_node().is_none());
}

#[test]
fn is_connected_goes_by_identity_hash() {
    let mut reg = Registry::new(4);
    let mut n = connected_node(81, CONNECTED | ALIVE);
    n.node_id = [5; 36];
    assert!(reg.add_node(n));
    assert!(reg.is_connected(id_hash(&[5; 36])));
    assert!(!reg.is_connected(id_hash(&[6; 36])));
}

#[test]
fn send_leaves_channelless_peer_alone() {
    let mut reg = Registry::new(4);
    assert!(reg.add_node(connected_node(91, DISCONNECTED)));
    reg.send(91, ChannelBuffer::new());
    assert!(reg.get_node(91).is_some());
    // an unknown peer changes nothing either
    reg.send(92, ChannelBuffer::new());
    assert_eq!(reg.get_all_nodes_count(), 1);
}

#[test]
fn active_node_selection_counts_and_excludes_asker() {
    let mut reg = Registry::new(32);
    for h in 1u64..=20 {
        let mut n = connected_node(h, CONNECTED | ALIVE);
        n.node_id[0] = h as u8;
        assert!(reg.add_node(n));
    }
    let picked = select_active_peers(&reg, 7);
    assert_eq!(picked.len(), 16);
    for p in &picked {
        assert_ne!(p.node_id[0], 7);
    }
    let mut small = Registry::new(8);
    for h in 1u64..=3 {
        assert!(small.add_node(connected_node(h, CONNECTED | ALIVE)));
    }
    assert_eq!(select_active_peers(&small, 3).len(), 2);
    assert_eq!(select_active_peers(&small, 99).len(), 3);
}

#[test]
fn advertised_peers_enter_as_disconnected() {
    let mut reg = Registry::new(3);
    let mut sender = connected_node(70, CONNECTED | ALIVE);
    assert!(reg.add_node(sender));
    let ads = vec![
        AdvertisedPeer { node_id: [1; 36], ip: [1; 8], port: 100 },
        AdvertisedPeer { node_id: [2; 36], ip: [2; 8], port: 200 },
        AdvertisedPeer { node_id: [1; 36], ip: [1; 8], port: 100 },
        AdvertisedPeer { node_id: [4; 36], ip: [4; 8], port: 400 },
    ];
    let body = encode_active_nodes(&ads);
    let f = frame(VERSION_V0, MODULE_P2P, 6, body);
    active_nodes_receive_res(&mut reg, &mut sender, &f);
    // the duplicate is absorbed once, and the cap of three stops the fourth
    assert_eq!(reg.get_all_nodes_count(), 3);
    let first = reg.get_node(id_hash(&[1; 36])).expect("absorbed");
    assert_eq!(first.state_code, DISCONNECTED);
    assert_eq!(first.ip_addr.port, 100);
    assert!(reg.get_node(id_hash(&[4; 36])).is_none());
}

#[test]
fn prepare_outbound_decision_is_exact() {
    let mut reg = Registry::new(8);
    let (tx, _rx) = sync_channel(1);
    assert!(reg.add_peer(connected_node(33, CONNECTED | ALIVE), tx));
    // alive peer: never redialed
    assert!(!prepare_outbound(&mut reg, 33));
    assert!(reg.get_node(33).is_some());
}

#[test]
fn handshake_response_promotes_stored_record() {
    let mut reg = Registry::new(4);
    let (tx, _rx) = sync_channel(8);
    let mut peer = connected_node(45, CONNECTED);
    assert!(reg.add_peer(peer, tx));
    let good = frame(VERSION_V0, MODULE_P2P, 2, encode_handshake_res(0, &b"r1".to_vec()));
    handshake_receive_res(&mut reg, &mut peer, &good);
    assert_eq!(peer.state_code, CONNECTED | ALIVE);
    assert_eq!(reg.get_node(45).unwrap().state_code, CONNECTED | ALIVE);
    // a failed result drops the peer
    let mut other = connected_node(46, CONNECTED);
    assert!(reg.add_node(other));
    let bad = frame(VERSION_V0, MODULE_P2P, 2, encode_handshake_res(1, &Vec::new()));
    handshake_receive_res(&mut reg, &mut other, &bad);
    assert!(reg.get_node(46).is_none());
}

use std::sync::mpsc::sync_channel;
use unity_p2p_core::codec::{Head, ChannelBuffer, MODULE_EXTERNAL, SYNC_ACTION_BLOCKSHEADERSREQ,
    VERSION_V0};
use unity_p2p_core::node::{Node, ALIVE, CONNECTED};
use unity_p2p_core::registry::Registry;
use unity_p2p_core::sync::{
    build_blocks_headers_req, decode_headers, encode_header, encode_headers, BlockHeadersHandler,
    SyncStorage,
};
use unity_p2p_core::unity::{Header, SealType};

fn header(number: u64, timestamp: u64, difficulty: u128, seal: SealType) -> Header {
    Header { number, timestamp, difficulty, seal_type: seal }
}

fn sync_peer(hash: u64) -> Node {
    let mut n = Node::new();
    n.node_hash = hash;
    n.state_code = CONNECTED | ALIVE;
    n
}

#[test]
fn header_wire_round_trip() {
    let hs = vec![
        header(1, 1000, 1u128 << 80, SealType::PoW),
        header(2, 1010, 42, SealType::PoS),
    ];
    let body = encode_headers(&hs);
    assert_eq!(body.len(), 2 * 37);
    let parsed = decode_headers(&body).expect("well-formed run");
    assert_eq!(parsed.len(), 2);
    assert_eq!(parsed[0], hs[0]);
    assert_eq!(parsed[1], hs[1]);
    assert_eq!(encode_header(&hs[0]).len(), 33);
}

#[test]
fn header_wire_rejects_malformed_bytes() {
    let hs = vec![header(1, 1000, 7, SealType::PoW)];
    let mut body = encode_headers(&hs);
    body.pop();
    assert!(decode_headers(&body).is_none());
    let mut bad_seal = encode_headers(&hs);
    let last = bad_seal.len() - 1;
    bad_seal[last] = 9;
    assert!(decode_headers(&bad_seal).is_none());
    assert!(decode_headers(&Vec::new()).unwrap().is_empty());
}

#[test]
fn request_frame_carries_range() {
    let f = build_blocks_headers_req(1234, 96);
    assert_eq!(f.head.ver, VERSION_V0);
    assert_eq!(f.head.ctrl, MODULE_EXTERNAL);
    assert_eq!(f.head.action, SYNC_ACTION_BLOCKSHEADERSREQ);
    assert_eq!(f.head.len, 12);
    assert_eq!(f.body[..8], [0, 0, 0, 0, 0, 0, 0x04, 0xD2]);
    assert_eq!(f.body[8..], [0, 0, 0, 96]);
}

#[test]
fn rate_limit_and_dedup_gate_requests() {
    let mut storage = SyncStorage::new();
    let mut reg = Registry::new(4);
    let (tx, rx) = sync_channel(16);
    let mut peer = sync_peer(61);
    assert!(reg.add_peer(peer, tx));

    // first request goes out: start derived as max(1, requested - 1) = 1
    BlockHeadersHandler::get_headers_from_node(&mut storage, &mut reg, false, 1000, &mut peer, 0,
        96);
    assert_eq!(peer.last_request_num, 1);
    assert_eq!(peer.last_request_timestamp, 1000);
    assert_eq!(storage.get_requested_block_number_last_time(), 97);
    assert!(rx.try_recv().is_ok());
    // the stored record carries the stamps too
    let stored = reg.get_node(61).unwrap();
    assert_eq!(stored.last_request_num, 1);
    assert_eq!(stored.last_request_timestamp, 1000);

    // 40 ms later: rate limited, nothing moves
    let mut again = peer;
    BlockHeadersHandler::get_headers_from_node(&mut storage, &mut reg, false, 1040, &mut again, 0,
        96);
    assert_eq!(again.last_request_timestamp, 1000);
    assert!(rx.try_recv().is_err());

    // 60 ms later but the same start: deduplicated, stamp unchanged
    BlockHeadersHandler::get_headers_from_node(&mut storage, &mut reg, false, 1060, &mut again, 1,
        96);
    assert_eq!(again.last_request_timestamp, 1000);
    assert!(rx.try_recv().is_err());

    // a fresh start goes out again
    BlockHeadersHandler::get_headers_from_node(&mut storage, &mut reg, false, 1060, &mut again,
        500, 96);
    assert_eq!(again.last_request_num, 500);
    assert_eq!(again.last_request_timestamp, 1060);
    assert!(rx.try_recv().is_ok());
}

#[test]
fn boot_only_policy_blocks_ordinary_peers() {
    let mut storage = SyncStorage::new();
    let mut reg = Registry::new(4);
    let mut peer = sync_peer(62);
    BlockHeadersHandler::get_headers_from_node(&mut storage, &mut reg, true, 1000, &mut peer, 0,
        96);
    assert_eq!(peer.last_request_num, 0);
    peer.is_from_boot_list = true;
    BlockHeadersHandler::get_headers_from_node(&mut storage, &mut reg, true, 1000, &mut peer, 0,
        96);
    assert_eq!(peer.last_request_num, 1);
}

#[test]
fn imports_are_ordered_and_deduplicated() {
    let mut storage = SyncStorage::new();
    let h1 = header(1, 1000, 5, SealType::PoW);
    let h2 = header(2, 1010, 5, SealType::PoS);
    BlockHeadersHandler::import_block_header(&mut storage, &vec![h1, h2]);
    assert_eq!(storage.chain_length(), 2);
    assert_eq!(storage.get_synced_block_number(), 2);
    assert_eq!(storage.get_chain_header(0).unwrap(), h1);
    assert_eq!(storage.get_chain_header(1).unwrap(), h2);
    // importing the same headers again changes nothing: the log is a single
    // totally ordered sequence of first applications
    BlockHeadersHandler::import_block_header(&mut storage, &vec![h2, h1]);
    assert_eq!(storage.chain_length(), 2);
    let h3 = header(3, 1020, 6, SealType::PoW);
    BlockHeadersHandler::import_block_header(&mut storage, &vec![h2, h3]);
    assert_eq!(storage.chain_length(), 3);
    assert_eq!(storage.get_chain_header(2).unwrap(), h3);
    assert_eq!(storage.get_synced_block_number(), 3);
}

#[test]
fn header_response_imports_and_rewards() {
    let mut storage = SyncStorage::new();
    let mut reg = Registry::new(4);
    let mut peer = sync_peer(63);
    assert!(reg.add_node(peer));
    let hs = vec![
        header(1, 1000, 5, SealType::PoW),
        header(2, 1010, 5, SealType::PoS),
    ];
    let body = encode_headers(&hs);
    let f = ChannelBuffer {
        head: Head { ver: VERSION_V0, ctrl: MODULE_EXTERNAL, action: 3, len: body.len() as u32 },
        body,
    };
    BlockHeadersHandler::handle_blocks_headers_res(&mut storage, &mut reg, &mut peer, &f);
    assert_eq!(peer.reputation, 10);
    assert_eq!(peer.requested_block_num, 2);
    assert_eq!(storage.chain_length(), 2);
    assert_eq!(storage.get_synced_block_number(), 2);
    let stored = reg.get_node(63).unwrap();
    assert_eq!(stored.reputation, 10);
    assert_eq!(stored.requested_block_num, 2);

    // an empty response earns a single point and imports nothing
    let empty = ChannelBuffer {
        head: Head { ver: VERSION_V0, ctrl: MODULE_EXTERNAL, action: 3, len: 0 },
        body: Vec::new(),
    };
    BlockHeadersHandler::handle_blocks_headers_res(&mut storage, &mut reg, &mut peer, &empty);
    assert_eq!(peer.reputation, 11);
    assert_eq!(storage.chain_length(), 2);
}

#[test]
fn malformed_header_response_drops_peer() {
    let mut storage = SyncStorage::new();
    let mut reg = Registry::new(4);
    let mut peer = sync_peer(64);
    assert!(reg.add_node(peer));
    let f = ChannelBuffer {
        head: Head { ver: VERSION_V0, ctrl: MODULE_EXTERNAL, action: 3, len: 3 },
        body: vec![1, 2, 3],
    };
    BlockHeadersHandler::handle_blocks_headers_res(&mut storage, &mut reg, &mut peer, &f);
    assert!(reg.get_node(64).is_none());
    assert_eq!(storage.chain_length(), 0);
}

#[test]
fn stale_headers_are_discarded() {
    let mut storage = SyncStorage::new();
    storage.set_synced_block_number(10);
    let mut reg = Registry::new(4);
    let mut peer = sync_peer(65);
    assert!(reg.add_node(peer));
    let hs = vec![header(3, 900, 5, SealType::PoW)];
    let body = encode_headers(&hs);
    let f = ChannelBuffer {
        head: Head { ver: VERSION_V0, ctrl: MODULE_EXTERNAL, action: 3, len: body.len() as u32 },
        body,
    };
    BlockHeadersHandler::handle_blocks_headers_res(&mut storage, &mut reg, &mut peer, &f);
    // too old to import, but it still earns the small reputation bump and
    // still drags the requested height forward
    assert_eq!(peer.reputation, 1);
    assert_eq!(peer.requested_block_num, 3);
    assert_eq!(storage.chain_length(), 0);
    assert_eq!(storage.get_synced_block_number(), 10);
}

#[test]
fn backward_start_is_floored_at_one() {
    let mut storage = SyncStorage::new();
    storage.set_synced_block_number(40);
    let mut reg = Registry::new(4);
    let mut peer = sync_peer(66);
    peer.mode = unity_p2p_core::node::Mode::BACKWARD;
    peer.requested_block_num = 50;
    BlockHeadersHandler::get_headers_from_node(&mut storage, &mut reg, false, 1000, &mut peer, 0,
        96);
    // 50 is within one backward step of the start of the chain
    assert_eq!(peer.last_request_num, 1);
    // far enough up the chain, the start steps down by one full step
    let mut far = sync_peer(67);
    far.mode = unity_p2p_core::node::Mode::BACKWARD;
    far.requested_block_num = 500;
    storage.set_synced_block_number(480);
    BlockHeadersHandler::get_headers_from_node(&mut storage, &mut reg, false, 2000, &mut far, 0,
        96);
    assert_eq!(far.last_request_num, 500 - 128);
}

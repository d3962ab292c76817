use blockchain::blocks::{Block, Chain};

/// Drives one `create b` command end to end: the command yields a
/// mining action, the block is mined as the worker would, and its
/// delivery appends and broadcasts it; returns the published JSON.
fn create_block(node: &mut NodeState, line: &str) -> String {
    let acts = node.handle_command(line).expect("command handled");
    let (id, payload, previous_hash) = match &acts[0] {
        Action::MineBlock { id, payload, previous_hash } => {
            (*id, payload.clone(), previous_hash.clone())
        },
        other => panic!("unexpected action: {:?}", other),
    };
    let block = Block::new(id, payload, previous_hash).expect("mining succeeds");
    let acts = node.handle_mined(block).expect("mined block handled");
    match &acts[0] {
        Action::PublishBlocks(json) => json.clone(),
        other => panic!("unexpected action: {:?}", other),
    }
}
use blockchain::codec::{
    parse_block, parse_request, parse_response, serialize_block, serialize_blocks,
    serialize_request, serialize_response,
};
use blockchain::p2p::{
    classify, Action, ChainResponse, EventType, LocalChainRequest, NodeState, PeerRegistry,
    SyncMessage,
};

#[test]
fn block_wire_round_trip() {
    let b = Block {
        id: 7,
        nonce: 12345,
        timestamp: -3,
        data: "pay\"load\\ with \n, \u{1}, \u{1f} and 😃".to_string(),
        previous_hash: "00ab".to_string(),
        hash: "00cd".to_string(),
    };
    let json = serialize_block(&b);
    let back = parse_block(&json).expect("the serialized block parses");
    assert_eq!(back, b);
}

#[test]
fn control_characters_use_unicode_escapes() {
    let b = Block {
        id: 1,
        nonce: 2,
        timestamp: 3,
        data: "a\u{1}b".to_string(),
        previous_hash: "p".to_string(),
        hash: "h".to_string(),
    };
    let json = serialize_block(&b);
    assert!(json.contains("a\\u0001b"));
    let back = parse_block(&json).expect("parses");
    assert_eq!(back.data, "a\u{1}b");
}

#[test]
fn block_wire_shape_is_stable() {
    let b = Block {
        id: 1,
        nonce: 2,
        timestamp: 3,
        data: "d".to_string(),
        previous_hash: "p".to_string(),
        hash: "h".to_string(),
    };
    assert_eq!(
        serialize_block(&b),
        "{\"id\":1,\"nonce\":2,\"timestamp\":3,\"data\":\"d\",\"previous_hash\":\"p\",\"hash\":\"h\"}"
    );
}

#[test]
fn response_wire_round_trip() {
    let mut chain = Chain::default();
    chain.add_data("a".to_string()).expect("mining succeeds");
    let resp = ChainResponse {
        blocks: chain.blocks,
        receiver: "peer-1".to_string(),
    };
    let json = serialize_response(&resp);
    let back = parse_response(&json).expect("the serialized response parses");
    assert_eq!(back.receiver, resp.receiver);
    assert_eq!(back.blocks.len(), 2);
    assert_eq!(back.blocks[1], resp.blocks[1]);

    let remote = Chain { blocks: back.blocks };
    assert!(remote.is_valid());
}

#[test]
fn request_wire_round_trip() {
    let req = LocalChainRequest {
        from_peer_id: "peer-9".to_string(),
    };
    let json = serialize_request(&req);
    assert_eq!(json, "{\"from_peer_id\":\"peer-9\"}");
    let back = parse_request(&json).expect("the serialized request parses");
    assert_eq!(back.from_peer_id, req.from_peer_id);
}

#[test]
fn chain_serialization_round_trips_through_response() {
    let mut chain = Chain::default();
    chain.add_data("x".to_string()).expect("mining succeeds");
    let json = serialize_blocks(&chain.blocks);
    let wrapped = format!("{{\"blocks\":{},\"receiver\":\"r\"}}", json);
    let back = parse_response(&wrapped).expect("parses");
    let remote = Chain { blocks: back.blocks };
    assert_eq!(remote.is_valid(), chain.is_valid());
    assert_eq!(remote.blocks.len(), chain.blocks.len());
}

#[test]
fn classify_takes_schemas_in_order() {
    let req_json = serialize_request(&LocalChainRequest {
        from_peer_id: "p".to_string(),
    });
    assert!(matches!(classify(&req_json), Some(SyncMessage::Request(_))));

    let b = Block::default();
    let block_json = serialize_block(&b);
    assert!(matches!(classify(&block_json), Some(SyncMessage::NewBlock(_))));

    let resp_json = serialize_response(&ChainResponse {
        blocks: vec![Block::default()],
        receiver: "p".to_string(),
    });
    assert!(matches!(classify(&resp_json), Some(SyncMessage::Response(_))));

    assert!(classify("not json at all").is_none());
    assert!(classify("{\"unknown\":1}").is_none());
}

#[test]
fn longer_remote_chain_replaces_local() {
    let mut remote = Chain::default();
    remote.add_data("a".to_string()).expect("mining succeeds");
    remote.add_data("b".to_string()).expect("mining succeeds");
    remote.add_data("c".to_string()).expect("mining succeeds");
    remote.add_data("d".to_string()).expect("mining succeeds");
    assert_eq!(remote.blocks.len(), 5);

    let mut node = NodeState::new("me".to_string());
    create_block(&mut node, "create b x");
    assert_eq!(node.chain.blocks.len(), 2);

    let json = serialize_response(&ChainResponse {
        blocks: remote.blocks,
        receiver: "me".to_string(),
    });
    let acts = node.handle_message(&json, "sender").expect("handled");
    assert!(acts.is_empty());
    assert_eq!(node.chain.blocks.len(), 5);
    assert!(node.chain.is_valid());
}

#[test]
fn broken_remote_chain_is_ignored() {
    let mut remote = Chain::default();
    remote.add_data("a".to_string()).expect("mining succeeds");
    remote.blocks[1].previous_hash = "beef".to_string();

    let mut node = NodeState::new("me".to_string());
    let json = serialize_response(&ChainResponse {
        blocks: remote.blocks,
        receiver: "me".to_string(),
    });
    let acts = node.handle_message(&json, "sender").expect("handled");
    assert!(acts.is_empty());
    assert_eq!(node.chain.blocks.len(), 1);
}

#[test]
fn response_for_another_peer_is_ignored() {
    let mut remote = Chain::default();
    remote.add_data("a".to_string()).expect("mining succeeds");

    let mut node = NodeState::new("me".to_string());
    let json = serialize_response(&ChainResponse {
        blocks: remote.blocks,
        receiver: "someone-else".to_string(),
    });
    let acts = node.handle_message(&json, "sender").expect("handled");
    assert!(acts.is_empty());
    assert_eq!(node.chain.blocks.len(), 1);
}

#[test]
fn unparseable_bytes_leave_state_and_log_once() {
    let mut node = NodeState::new("me".to_string());
    let acts = node.handle_message("garbage {{{", "sender").expect("handled");
    assert_eq!(acts.len(), 1);
    match &acts[0] {
        Action::LogUnparseable(text, source) => {
            assert_eq!(text, "garbage {{{");
            assert_eq!(source, "sender");
        },
        other => panic!("unexpected action: {:?}", other),
    }
    assert_eq!(node.chain.blocks.len(), 1);
    assert_eq!(node.peers.peers.len(), 0);
}

#[test]
fn request_naming_local_peer_queues_full_chain() {
    let mut node = NodeState::new("me".to_string());
    create_block(&mut node, "create b x");
    let json = serialize_request(&LocalChainRequest {
        from_peer_id: "me".to_string(),
    });
    let acts = node.handle_message(&json, "requester").expect("handled");
    assert_eq!(acts.len(), 1);
    match &acts[0] {
        Action::QueueResponse(resp) => {
            assert_eq!(resp.receiver, "requester");
            assert_eq!(resp.blocks.len(), 2);
        },
        other => panic!("unexpected action: {:?}", other),
    }

    let other = serialize_request(&LocalChainRequest {
        from_peer_id: "not-me".to_string(),
    });
    let acts = node.handle_message(&other, "requester").expect("handled");
    assert!(acts.is_empty());
}

#[test]
fn received_block_extends_or_logs() {
    let mut miner = NodeState::new("miner".to_string());
    let json = create_block(&mut miner, "create b hello");

    let mut node = NodeState::new("me".to_string());
    let acts = node.handle_message(&json, "miner").expect("handled");
    assert!(acts.is_empty());
    assert_eq!(node.chain.blocks.len(), 2);
    assert_eq!(node.chain.blocks[1].data, " hello");

    let repeat = node.handle_message(&json, "miner").expect("handled");
    assert_eq!(repeat.len(), 1);
    assert!(matches!(repeat[0], Action::LogBlockRejected));
    assert_eq!(node.chain.blocks.len(), 2);
}

#[test]
fn commands_are_prefix_matched() {
    let mut node = NodeState::new("me".to_string());

    let acts = node.handle_event(EventType::Input("ls p".to_string())).expect("handled");
    assert!(matches!(&acts[0], Action::PrintPeers(ps) if ps.is_empty()));

    let acts = node.handle_event(EventType::Input("ls c".to_string())).expect("handled");
    match &acts[0] {
        Action::PrintChain(json) => {
            let g = Block::default();
            let expected = format!(
                "[\n  {{\n    \"id\": {},\n    \"nonce\": {},\n    \"timestamp\": {},\n    \"data\": \"{}\",\n    \"previous_hash\": \"{}\",\n    \"hash\": \"{}\"\n  }}\n]",
                g.id, g.nonce, g.timestamp, g.data, g.previous_hash, g.hash
            );
            assert_eq!(json, &expected);
        },
        other => panic!("unexpected action: {:?}", other),
    }

    let acts = node.handle_event(EventType::Input("create b hi".to_string())).expect("handled");
    match &acts[0] {
        Action::MineBlock { id, payload, previous_hash } => {
            assert_eq!(*id, 1);
            assert_eq!(payload, " hi");
            assert_eq!(previous_hash, &node.chain.blocks[0].hash);
        },
        other => panic!("unexpected action: {:?}", other),
    }
    assert_eq!(node.chain.blocks.len(), 1);

    let acts = node.handle_event(EventType::Input("nonsense".to_string())).expect("handled");
    assert!(matches!(acts[0], Action::LogUnknownCommand));
}

#[test]
fn stale_mined_block_is_dropped() {
    let mut node = NodeState::new("me".to_string());
    let acts = node.handle_command("create b first").expect("command handled");
    let (id, payload, previous_hash) = match &acts[0] {
        Action::MineBlock { id, payload, previous_hash } => {
            (*id, payload.clone(), previous_hash.clone())
        },
        other => panic!("unexpected action: {:?}", other),
    };
    let slow_result = Block::new(id, payload, previous_hash).expect("mining succeeds");

    node.chain.add_data("interleaved".to_string()).expect("mining succeeds");
    assert_eq!(node.chain.blocks.len(), 2);

    let acts = node.handle_mined(slow_result).expect("mined block handled");
    assert_eq!(acts.len(), 1);
    assert!(matches!(acts[0], Action::LogBlockRejected));
    assert_eq!(node.chain.blocks.len(), 2);
}

#[test]
fn init_asks_one_known_peer_for_its_chain() {
    let mut node = NodeState::new("me".to_string());
    let acts = node.handle_event(EventType::Init).expect("handled");
    assert!(acts.is_empty());

    node.handle_event(EventType::PeerDiscovered("peer-a".to_string())).expect("handled");
    node.handle_event(EventType::PeerDiscovered("peer-b".to_string())).expect("handled");
    let acts = node.handle_event(EventType::Init).expect("handled");
    assert_eq!(acts.len(), 1);
    match &acts[0] {
        Action::PublishChains(json) => {
            let req = parse_request(json).expect("request parses");
            assert_eq!(req.from_peer_id, "peer-b");
        },
        other => panic!("unexpected action: {:?}", other),
    }
}

#[test]
fn registry_tracks_discovery_events() {
    let mut reg = PeerRegistry::new();
    reg.add("a".to_string());
    reg.add("b".to_string());
    reg.add("a".to_string());
    assert_eq!(reg.len(), 2);
    assert!(reg.contains("a"));
    reg.remove("a");
    assert!(!reg.contains("a"));
    assert!(reg.contains("b"));
    assert_eq!(reg.len(), 1);
}

#[test]
fn queued_response_is_published_on_chains_topic() {
    let mut node = NodeState::new("me".to_string());
    let resp = ChainResponse {
        blocks: vec![Block::default()],
        receiver: "peer".to_string(),
    };
    let expected = serialize_response(&resp);
    let acts = node.handle_event(EventType::Response(resp)).expect("handled");
    assert_eq!(acts.len(), 1);
    match &acts[0] {
        Action::PublishChains(json) => assert_eq!(json, &expected),
        other => panic!("unexpected action: {:?}", other),
    }
}

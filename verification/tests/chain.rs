use blockchain::blocks::{Block, Chain, ForkChoice, LedgerError};
use blockchain::hashing::{hex_encode, sha256_digest};

const GENESIS_HASH: &str = "000070b5e654cb2f8d04cb9b409eecf73a32016093a73b2f16adbd150730efd4";

#[test]
fn sha256_matches_reference_vector() {
    let digest = sha256_digest("abc");
    assert_eq!(
        hex_encode(&digest),
        "ba7816bf8f01cfea414140de5dae2223b00361a396177a9cb410ff61f20015ad"
    );
}

#[test]
fn genesis_is_premined() {
    let g = Block::default();
    assert_eq!(g.id, 0);
    assert_eq!(g.nonce, 7028);
    assert_eq!(g.timestamp, 1_000_000_000);
    assert_eq!(g.data.as_str(), "genesis");
    assert_eq!(g.previous_hash.as_str(), "0000");
    assert_eq!(g.hash.as_str(), GENESIS_HASH);
}

#[test]
fn mining_reproduces_genesis() {
    let mined = blockchain::blocks::mine_block(0, 1_000_000_000, "genesis", "0000");
    let (nonce, hash) = mined.expect("the genesis nonce exists");
    assert_eq!(nonce, 7028);
    assert_eq!(hash.as_str(), GENESIS_HASH);
}

#[test]
fn preimage_matches_reference_json() {
    let built = blockchain::blocks::build_preimage(3, 77, -5, "a\"b\\c\nd\u{1}e😃", "00ff");
    let mut map = serde_json::Map::new();
    map.insert("id".to_string(), serde_json::Value::from(3u64));
    map.insert("previous_hash".to_string(), serde_json::Value::from("00ff"));
    map.insert("data".to_string(), serde_json::Value::from("a\"b\\c\nd\u{1}e😃"));
    map.insert("timestamp".to_string(), serde_json::Value::from(-5i64));
    map.insert("nonce".to_string(), serde_json::Value::from(77u64));
    let reference = serde_json::Value::Object(map).to_string();
    assert_eq!(built, reference);
}

#[test]
fn hash2binary_drops_leading_zero_bits() {
    assert_eq!(blockchain::blocks::hash2binary(&vec![0u8, 0, 255]), "0011111111");
    assert_eq!(blockchain::blocks::hash2binary(&vec![5u8]), "101");
}

#[test]
fn fresh_block_extends_chain() {
    let genesis = Block::default();
    let b = Block::new(genesis.id + 1, "payload".to_string(), genesis.hash.clone())
        .expect("mining succeeds");
    assert!(b.is_valid(&genesis));
}

#[test]
fn append_local_keeps_chain_valid() {
    let mut chain = Chain::default();
    let b = chain.add_data("a".to_string()).expect("mining succeeds");
    assert_eq!(chain.blocks.len(), 2);
    assert_eq!(chain.blocks[1].previous_hash, chain.blocks[0].hash);
    assert_eq!(b.previous_hash.as_str(), GENESIS_HASH);
    assert!(chain.is_valid());
    chain.add_data("b".to_string()).expect("mining succeeds");
    chain.add_data("c".to_string()).expect("mining succeeds");
    assert_eq!(chain.blocks.len(), 4);
    assert!(chain.is_valid());
}

#[test]
fn tampering_any_field_invalidates() {
    let genesis = Block::default();
    let mut chain = Chain::default();
    let b = chain.add_data("data".to_string()).expect("mining succeeds");
    assert!(b.is_valid(&genesis));

    let mut t = b.clone();
    t.id += 1;
    assert!(!t.is_valid(&genesis));

    let mut t = b.clone();
    t.nonce += 1;
    assert!(!t.is_valid(&genesis));

    let mut t = b.clone();
    t.timestamp += 1;
    assert!(!t.is_valid(&genesis));

    let mut t = b.clone();
    t.data.push('x');
    assert!(!t.is_valid(&genesis));

    let mut t = b.clone();
    t.previous_hash = "0000".to_string();
    assert!(!t.is_valid(&genesis));

    let mut t = b.clone();
    t.hash = if t.hash.ends_with('0') {
        format!("{}1", &b.hash[..b.hash.len() - 1])
    } else {
        format!("{}0", &b.hash[..b.hash.len() - 1])
    };
    assert!(!t.is_valid(&genesis));
}

#[test]
fn duplicate_block_is_rejected() {
    let mut chain = Chain::default();
    chain.add_data("a".to_string()).expect("mining succeeds");
    let duplicate = chain.blocks[1].clone();
    let added = chain.try_add_block(duplicate);
    assert!(!added);
    assert_eq!(chain.blocks.len(), 2);
}

#[test]
fn longer_valid_chain_wins_both_ways() {
    let mut long = Chain::default();
    long.add_data("a".to_string()).expect("mining succeeds");
    long.add_data("b".to_string()).expect("mining succeeds");
    let mut short = Chain::default();
    short.add_data("x".to_string()).expect("mining succeeds");

    assert!(matches!(short.compare(&long), ForkChoice::RemoteWins));
    assert!(matches!(long.compare(&short), ForkChoice::LocalWins));
}

#[test]
fn equal_length_keeps_local_on_both_sides() {
    let mut a = Chain::default();
    a.add_data("a".to_string()).expect("mining succeeds");
    let mut b = Chain::default();
    b.add_data("b".to_string()).expect("mining succeeds");

    assert!(matches!(a.compare(&b), ForkChoice::LocalWins));
    assert!(matches!(b.compare(&a), ForkChoice::LocalWins));
    let tail = a.blocks[1].clone();
    a.choose_chain(&b).expect("at least one side is valid");
    assert_eq!(a.blocks.len(), 2);
    assert_eq!(a.blocks[1], tail);
}

#[test]
fn invalid_side_loses() {
    let mut valid = Chain::default();
    valid.add_data("a".to_string()).expect("mining succeeds");
    let mut broken = Chain::default();
    broken.add_data("b".to_string()).expect("mining succeeds");
    broken.add_data("c".to_string()).expect("mining succeeds");
    broken.blocks[1].previous_hash = "beef".to_string();
    assert!(!broken.is_valid());

    assert!(matches!(valid.compare(&broken), ForkChoice::LocalWins));
    assert!(matches!(broken.compare(&valid), ForkChoice::RemoteWins));
}

#[test]
fn both_invalid_is_incomparable() {
    let mut a = Chain::default();
    a.add_data("a".to_string()).expect("mining succeeds");
    a.blocks[1].previous_hash = "beef".to_string();
    let mut b = Chain::default();
    b.add_data("b".to_string()).expect("mining succeeds");
    b.blocks[1].previous_hash = "f00d".to_string();

    assert!(matches!(a.compare(&b), ForkChoice::Incomparable));
    assert_eq!(a.choose_chain(&b), Err(LedgerError::BothChainsInvalid));
    assert_eq!(a.blocks.len(), 2);
}

#[test]
fn add_data_on_empty_chain_fails() {
    let mut chain = Chain { blocks: Vec::new() };
    assert_eq!(chain.add_data("a".to_string()), Err(LedgerError::EmptyChain));
}

#[test]
fn add_data_at_greatest_index_fails() {
    let mut tail = Block::default();
    tail.id = u64::MAX;
    let mut chain = Chain { blocks: vec![tail] };
    assert_eq!(
        chain.add_data("a".to_string()),
        Err(LedgerError::IndexSpaceExhausted)
    );
}

use powchain::block::Block;
use powchain::blockchain::Blockchain;
use powchain::encoding::{hex_of_bytes, i64_to_string, u64_to_string, usize_to_string};
use powchain::hashing::{gen_hash, to_binary};
use sha2::{Digest, Sha256};

fn expand_bits(bytes: &[u8]) -> String {
    bytes.iter().map(|b| format!("{:08b}", b)).collect()
}

#[test]
fn gen_hash_matches_known_vector() {
    // SHA-256("abc"), expanded nibble by nibble into binary characters.
    let digest_hex = "ba7816bf8f01cfea414140de5dae2223b00361a396177a9cb410ff61f20015ad";
    let expected: String = digest_hex
        .chars()
        .map(|c| format!("{:04b}", c.to_digit(16).unwrap()))
        .collect();
    assert_eq!(gen_hash(vec!["abc".to_string()]), expected);
}

#[test]
fn gen_hash_concatenates_parts_in_order() {
    let split = gen_hash(vec!["a".to_string(), "bc".to_string()]);
    let joined = gen_hash(vec!["abc".to_string()]);
    let other = gen_hash(vec!["ab".to_string(), "d".to_string()]);
    assert_eq!(split, joined);
    assert_ne!(other, joined);
}

#[test]
fn gen_hash_of_no_parts_hashes_the_empty_string() {
    let r = gen_hash(vec![]);
    assert_eq!(r.len(), 256);
    assert_eq!(r, expand_bits(&Sha256::digest(b"")));
    assert!(r.chars().all(|c| c == '0' || c == '1'));
}

#[test]
fn to_binary_is_the_reversed_minimal_expansion() {
    let expected: String = Sha256::digest(b"foo")
        .iter()
        .map(|v| format!("{:b}", v))
        .collect::<String>()
        .chars()
        .rev()
        .collect();
    assert_eq!(to_binary("foo"), expected);
}

#[test]
fn decimal_renderings_are_exact() {
    assert_eq!(u64_to_string(0), "0");
    assert_eq!(u64_to_string(1234567890), "1234567890");
    assert_eq!(usize_to_string(1000), "1000");
    assert_eq!(i64_to_string(-45), "-45");
    assert_eq!(i64_to_string(0), "0");
    assert_eq!(i64_to_string(i64::MIN), "-9223372036854775808");
    assert_eq!(i64_to_string(i64::MAX), "9223372036854775807");
}

#[test]
fn hex_rendering_is_exact() {
    assert_eq!(hex_of_bytes(&vec![]), "");
    assert_eq!(hex_of_bytes(&vec![0x0f, 0xa0, 0xff]), "0fa0ff");
}

#[test]
fn mined_block_clears_its_difficulty_and_recomputes() {
    let genesis = Block::get_first_block();
    let block = Block::new_with_previous("some payload", &genesis).unwrap();

    assert_eq!(block.data, "some payload");
    assert_eq!(block.prev_hash, genesis.hash);
    assert!(block.hash[..block.difficulty].chars().all(|c| c == '0'));

    let recomputed = gen_hash(vec![
        block.timestamp.to_string(),
        block.data.clone(),
        genesis.hash.clone(),
        block.difficulty.to_string(),
        block.nonce.to_string(),
    ]);
    assert_eq!(block.hash, recomputed);
}

#[test]
fn freshly_grown_chain_is_valid() {
    let mut blockchain = Blockchain::new(vec![Block::get_first_block()]);
    assert!(Blockchain::is_valid_chain(&blockchain));

    for payload in ["one", "two", "three"] {
        assert!(blockchain.add_block(payload));
        assert!(Blockchain::is_valid_chain(&blockchain));
    }
    assert_eq!(blockchain.chain.len(), 4);

    let first = blockchain.get_nth_block(0).unwrap();
    let genesis = Block::get_first_block();
    assert_eq!(first.timestamp, genesis.timestamp);
    assert_eq!(first.data, genesis.data);
    assert_eq!(first.hash, genesis.hash);
    assert!(blockchain.get_nth_block(4).is_none());
}

#[test]
fn mutating_any_field_of_a_block_invalidates_the_chain() {
    let mut blockchain = Blockchain::new(vec![Block::get_first_block()]);
    for payload in ["one", "two", "three"] {
        assert!(blockchain.add_block(payload));
    }

    let kept = blockchain.chain[2].data.clone();
    blockchain.chain[2].data = "bar".to_string();
    assert_eq!(Blockchain::is_valid_chain(&blockchain), false);
    blockchain.chain[2].data = kept;
    assert!(Blockchain::is_valid_chain(&blockchain));

    let kept = blockchain.chain[2].prev_hash.clone();
    let flipped_last = if kept.ends_with('0') { "1" } else { "0" };
    blockchain.chain[2].prev_hash = format!("{}{}", &kept[..kept.len() - 1], flipped_last);
    assert_eq!(Blockchain::is_valid_chain(&blockchain), false);
    blockchain.chain[2].prev_hash = kept;
    assert!(Blockchain::is_valid_chain(&blockchain));

    blockchain.chain[2].difficulty += 1;
    assert_eq!(Blockchain::is_valid_chain(&blockchain), false);
    blockchain.chain[2].difficulty -= 1;
    assert!(Blockchain::is_valid_chain(&blockchain));

    blockchain.chain[2].nonce += 1;
    assert_eq!(Blockchain::is_valid_chain(&blockchain), false);
    blockchain.chain[2].nonce -= 1;
    assert!(Blockchain::is_valid_chain(&blockchain));
}

#[test]
fn chain_not_starting_at_genesis_is_invalid() {
    let mut genesis = Block::get_first_block();
    genesis.nonce = 1;
    let blockchain = Blockchain::new(vec![genesis]);
    assert_eq!(Blockchain::is_valid_chain(&blockchain), false);
}

#[test]
fn longest_valid_chain_wins() {
    let mut short = Blockchain::new(vec![Block::get_first_block()]);
    let mut long = Blockchain::new(vec![Block::get_first_block()]);

    for payload in ["a", "b"] {
        assert!(short.add_block(payload));
    }
    for payload in ["x", "y", "z"] {
        assert!(long.add_block(payload));
    }

    // The shorter ledger adopts the longer; the longer ignores the shorter.
    short.replace_chain(&long);
    assert_eq!(short.chain.len(), 4);
    assert_eq!(short.chain[3].data, "z");
    long.replace_chain(&Blockchain::new(vec![Block::get_first_block()]));
    assert_eq!(long.chain.len(), 4);
}

#[test]
fn replace_rejects_an_invalid_longer_chain() {
    let mut local = Blockchain::new(vec![Block::get_first_block()]);
    assert!(local.add_block("a"));

    let mut foreign = Blockchain::new(vec![Block::get_first_block()]);
    for payload in ["x", "y", "z"] {
        assert!(foreign.add_block(payload));
    }
    foreign.chain[1].data = "tampered".to_string();

    local.replace_chain(&foreign);
    assert_eq!(local.chain.len(), 2);
    assert_eq!(local.chain[1].data, "a");
}

#[test]
fn difficulty_adjustment_is_exact() {
    let mut block = Block::get_first_block();

    block.difficulty = 5;
    assert_eq!(Blockchain::optimize_difficulty(&block, 2000), 4);
    assert_eq!(Blockchain::optimize_difficulty(&block, 1001), 4);
    assert_eq!(Blockchain::optimize_difficulty(&block, 1000), 6);
    assert_eq!(Blockchain::optimize_difficulty(&block, 500), 6);
    assert_eq!(Blockchain::optimize_difficulty(&block, -1), 4);

    // The single step that can touch 0, and the clamp that recovers from it.
    block.difficulty = 1;
    assert_eq!(Blockchain::optimize_difficulty(&block, 2000), 0);
    assert_eq!(Blockchain::optimize_difficulty(&block, 500), 2);
    block.difficulty = 0;
    assert_eq!(Blockchain::optimize_difficulty(&block, 2000), 1);
    assert_eq!(Blockchain::optimize_difficulty(&block, 500), 1);
}

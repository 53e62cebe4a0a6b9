use alfis_chain::block::{Block, Transaction};
use alfis_chain::bytes::Bytes;
use alfis_chain::chain::{domain_zone, Chain, ChainError};
use alfis_chain::model::BlockQuality;
use alfis_chain::settings::{Settings, CHAIN_VERSION};

const T0: i64 = 1_600_000_000;

fn bytes(v: &[u8]) -> Bytes {
    Bytes::from_bytes(v)
}

fn hash_of(n: u8) -> Bytes {
    let mut v = vec![0u8; 32];
    v[31] = n;
    v[0] = 0x80;
    Bytes::new(v)
}

fn easy_settings(origin: Bytes) -> Settings {
    Settings {
        origin,
        block_difficulty: 0,
        locker_difficulty: 0,
        locker_block_start: 3,
        locker_block_count: 3,
        locker_block_interval: 300,
    }
}

fn tx(identity: &[u8], owner: &[u8], data: &str) -> Transaction {
    Transaction {
        identity: bytes(identity),
        confirmation: bytes(&[9, 9]),
        method: String::from("new"),
        data: String::from(data),
        pub_key: bytes(owner),
    }
}

fn block(index: u64, timestamp: i64, hash: Bytes, owner: &[u8], transaction: Option<Transaction>) -> Block {
    Block {
        index,
        timestamp,
        version: CHAIN_VERSION,
        difficulty: 0,
        random: 0,
        nonce: 0,
        transaction,
        prev_block_hash: Bytes::empty(),
        hash,
        pub_key: bytes(owner),
        signature: bytes(&[1, 2, 3]),
    }
}

fn check(chain: &Chain, b: &Block) -> BlockQuality {
    chain.check_new_block(b, &b.hash.clone(), true)
}

/// A chain of `n` blocks, all owned by key [1] except those listed in `others` (owned by [2]).
fn chain_of(n: u64, others: &[u64]) -> Chain {
    let mut chain = Chain::new(&easy_settings(Bytes::empty()));
    for i in 0..n {
        let owner: &[u8] = if others.contains(&i) { &[2] } else { &[1] };
        assert!(chain.add_block(block(i, T0 + i as i64, hash_of(i as u8 + 1), owner, None)));
    }
    chain
}

#[test]
fn genesis_then_twin_then_fork() {
    let mut chain = Chain::new(&easy_settings(Bytes::empty()));
    let genesis = block(0, T0, hash_of(1), &[1], None);
    assert_eq!(check(&chain, &genesis), BlockQuality::Good);
    assert!(chain.add_block(genesis.clone()));
    assert_eq!(check(&chain, &genesis), BlockQuality::Twin);
    let other = block(0, T0, hash_of(2), &[1], None);
    assert_eq!(check(&chain, &other), BlockQuality::Fork);
}

#[test]
fn identity_spoof_is_bad() {
    let mut chain = Chain::new(&easy_settings(Bytes::empty()));
    for i in 0..6u64 {
        let t = if i == 3 { Some(tx(&[7, 7], &[1], "k1")) } else { None };
        assert!(chain.add_block(block(i, T0 + i as i64, hash_of(i as u8 + 1), &[1], t)));
    }
    assert_eq!(chain.height(), 5);
    let spoof = block(6, T0 + 6, hash_of(7), &[2], Some(tx(&[7, 7], &[2], "k2")));
    assert_eq!(check(&chain, &spoof), BlockQuality::Bad);
    let same_owner = block(6, T0 + 6, hash_of(7), &[1], Some(tx(&[7, 7], &[1], "k1 again")));
    assert_eq!(check(&chain, &same_owner), BlockQuality::Good);
}

#[test]
fn classification_is_repeatable() {
    let chain = chain_of(4, &[]);
    let b = block(4, T0 + 4, hash_of(5), &[1], None);
    let first = chain.check_new_block_at(&b, T0 + 100, &b.hash.clone(), true);
    let second = chain.check_new_block_at(&b, T0 + 100, &b.hash.clone(), true);
    assert_eq!(first, second);
}

#[test]
fn future_gap() {
    let chain = chain_of(11, &[]);
    assert_eq!(chain.height(), 10);
    let far = block(12, T0 + 20, hash_of(40), &[1], None);
    assert_eq!(check(&chain, &far), BlockQuality::Future);
    let next = block(11, T0 + 20, hash_of(41), &[1], None);
    assert_ne!(check(&chain, &next), BlockQuality::Future);
}

#[test]
fn no_head_and_not_genesis_is_future() {
    let chain = Chain::new(&easy_settings(Bytes::empty()));
    let b = block(3, T0, hash_of(1), &[1], None);
    assert_eq!(check(&chain, &b), BlockQuality::Future);
}

#[test]
fn genesis_origin_enforced() {
    let chain = Chain::new(&easy_settings(hash_of(9)));
    let wrong = block(0, T0, hash_of(1), &[1], None);
    assert_eq!(check(&chain, &wrong), BlockQuality::Bad);
    let right = block(0, T0, hash_of(9), &[1], None);
    assert_eq!(check(&chain, &right), BlockQuality::Good);
}

#[test]
fn own_checks_give_bad() {
    let chain = Chain::new(&easy_settings(Bytes::empty()));
    let b = block(0, T0, hash_of(1), &[1], None);
    // from the future
    assert_eq!(chain.check_new_block_at(&b, T0 - 1, &b.hash.clone(), true), BlockQuality::Bad);
    // hash does not match the content
    assert_eq!(chain.check_new_block_at(&b, T0, &hash_of(2), true), BlockQuality::Bad);
    // bad signature
    assert_eq!(chain.check_new_block_at(&b, T0, &b.hash.clone(), false), BlockQuality::Bad);
    // declared difficulty not met by the hash (first bit is set)
    let mut hard = block(0, T0, hash_of(1), &[1], None);
    hard.difficulty = 1;
    assert_eq!(chain.check_new_block_at(&hard, T0, &hard.hash.clone(), true), BlockQuality::Bad);
    let mut zeros = vec![0u8; 32];
    zeros[2] = 0x10;
    let mut ok = block(0, T0, Bytes::new(zeros), &[1], None);
    ok.difficulty = 19;
    assert_eq!(chain.check_new_block_at(&ok, T0, &ok.hash.clone(), true), BlockQuality::Good);
    ok.difficulty = 20;
    assert_eq!(chain.check_new_block_at(&ok, T0, &ok.hash.clone(), true), BlockQuality::Bad);
}

#[test]
fn minimum_difficulty_depends_on_transaction() {
    let chain = Chain::new(&Settings::new(Bytes::empty()));
    let mut zeros = vec![0u8; 32];
    zeros[3] = 0x01;
    let mut b = block(0, T0, Bytes::new(zeros), &[1], None);
    b.difficulty = 17;
    assert_eq!(chain.check_new_block_at(&b, T0, &b.hash.clone(), true), BlockQuality::Bad);
    b.difficulty = 18;
    assert_eq!(chain.check_new_block_at(&b, T0, &b.hash.clone(), true), BlockQuality::Good);
}

#[test]
fn temporal_paradox_is_bad() {
    let chain = chain_of(3, &[]);
    let b = block(3, T0, hash_of(30), &[1], None);
    assert_eq!(check(&chain, &b), BlockQuality::Bad);
}

#[test]
fn older_index_same_hash_is_twin() {
    let chain = chain_of(5, &[]);
    let b = block(2, T0 + 2, hash_of(3), &[1], None);
    assert_eq!(check(&chain, &b), BlockQuality::Twin);
    let f = block(2, T0 + 2, hash_of(33), &[1], None);
    assert_eq!(check(&chain, &f), BlockQuality::Fork);
}

fn tail_hash(tail: u8) -> Bytes {
    let mut v = vec![0u8; 16];
    v[0] = 0x80;
    v[15] = tail;
    Bytes::new(v)
}

#[test]
fn locker_election_values() {
    let chain = chain_of(10, &[5]);
    let mut reference = block(9, T0 + 9, tail_hash(4), &[1], None);
    // start = 1 + (4 + 4 * 0) % 7 = 5: block 5 is owned by [2]
    let locker = chain.get_block_locker(&reference, T0 + 9).unwrap();
    assert_eq!(locker.as_slice(), &[2u8][..]);
    // start = 1 + (4 + 4 * 1) % 7 = 2: blocks 2, 3, 4 are [1], then 5 is [2]
    let locker = chain.get_block_locker(&reference, T0 + 9 + 300).unwrap();
    assert_eq!(locker.as_slice(), &[2u8][..]);
    // start = 1 + 6 % 7 = 7: blocks 7 and 8 are [1]
    reference.hash = tail_hash(6);
    assert!(chain.get_block_locker(&reference, T0 + 9).is_none());
    // below activation height
    let low = block(2, T0, tail_hash(4), &[1], None);
    assert!(chain.get_block_locker(&low, T0).is_none());
    // zero hash
    let zero = block(9, T0, Bytes::new(vec![0u8; 16]), &[1], None);
    assert!(chain.get_block_locker(&zero, T0).is_none());
}

#[test]
fn locker_is_repeatable() {
    let chain = chain_of(10, &[5]);
    let reference = block(9, T0 + 9, tail_hash(4), &[1], None);
    let a = chain.get_block_locker(&reference, T0 + 700).map(|k| k.as_slice().to_vec());
    let b = chain.get_block_locker(&reference, T0 + 700).map(|k| k.as_slice().to_vec());
    assert_eq!(a, b);
}

#[test]
fn locker_block_must_come_from_the_locker() {
    let mut chain = Chain::new(&easy_settings(Bytes::empty()));
    for i in 0..10u64 {
        let owner: &[u8] = if i == 5 { &[2] } else { &[1] };
        let h = if i == 9 { tail_hash(4) } else { hash_of(i as u8 + 1) };
        assert!(chain.add_block(block(i, T0 + i as i64, h, owner, None)));
    }
    let by_head_owner = block(10, T0 + 9, hash_of(50), &[1], None);
    assert_eq!(check(&chain, &by_head_owner), BlockQuality::Bad);
    let by_locker = block(10, T0 + 9, hash_of(50), &[2], None);
    assert_eq!(check(&chain, &by_locker), BlockQuality::Good);
}

#[test]
fn locker_lifted_after_enough_blocks() {
    let mut chain = Chain::new(&easy_settings(Bytes::empty()));
    for i in 0..10u64 {
        let owner: &[u8] = if i == 5 { &[2] } else { &[1] };
        let t = if i == 6 { Some(tx(&[4], &[1], "x")) } else { None };
        let h = if i == 9 { tail_hash(4) } else { hash_of(i as u8 + 1) };
        assert!(chain.add_block(block(i, T0 + i as i64, h, owner, t)));
    }
    // last full block is 6 and 6 + 3 <= 9: anyone may mine
    let reference = chain.last_block().unwrap();
    assert!(chain.get_block_locker(&reference, T0 + 9).is_none());
    assert_eq!(chain.get_last_full_block().unwrap().index, 6);
}

#[test]
fn three_level_names_unavailable() {
    let mut chain = chain_of(2, &[]);
    assert!(!chain.is_domain_available("a.b.c", &bytes(&[1]), &bytes(&[2]), &bytes(&[1])));
    assert!(!chain.is_domain_available("a.b.c", &bytes(&[1]), &bytes(&[2]), &bytes(&[9])));
}

#[test]
fn domain_availability() {
    let mut chain = Chain::new(&easy_settings(Bytes::empty()));
    assert!(chain.add_block(block(0, T0, hash_of(1), &[1], None)));
    assert!(chain.add_block(block(1, T0 + 1, hash_of(2), &[1], Some(tx(&[5, 5], &[1], "zone")))));
    // empty name
    assert!(!chain.is_domain_available("", &bytes(&[3]), &bytes(&[5, 5]), &bytes(&[1])));
    // top-level name that nobody holds
    assert!(chain.is_domain_available("free", &bytes(&[3]), &bytes(&[]), &bytes(&[2])));
    // top-level name held by another owner
    assert!(!chain.is_domain_available("zone", &bytes(&[5, 5]), &bytes(&[]), &bytes(&[2])));
    // ... and by the same owner
    assert!(chain.is_domain_available("zone", &bytes(&[5, 5]), &bytes(&[]), &bytes(&[1])));
    // second-level name under a registered zone, twice (the second time from the cache)
    assert!(chain.is_domain_available("x.zone", &bytes(&[6]), &bytes(&[5, 5]), &bytes(&[2])));
    assert!(chain.is_domain_available("x.zone", &bytes(&[6]), &bytes(&[5, 5]), &bytes(&[2])));
    // under an unknown zone
    assert!(!chain.is_domain_available("x.none", &bytes(&[6]), &bytes(&[8]), &bytes(&[2])));
}

#[test]
fn identity_stays_taken() {
    let mut chain = Chain::new(&easy_settings(Bytes::empty()));
    assert!(chain.add_block(block(0, T0, hash_of(1), &[1], None)));
    assert!(chain.add_block(block(1, T0 + 1, hash_of(2), &[1], Some(tx(&[5], &[1], "a")))));
    assert!(chain.add_block(block(2, T0 + 2, hash_of(3), &[2], Some(tx(&[5], &[2], "b")))));
    assert!(chain.add_block(block(3, T0 + 3, hash_of(4), &[2], Some(tx(&[5], &[2], "c")))));
    assert!(!chain.is_id_available(&bytes(&[5]), &bytes(&[2])));
    assert!(!chain.is_id_available(&bytes(&[5]), &bytes(&[1])));
    assert!(chain.is_id_available(&bytes(&[6]), &bytes(&[2])));
}

#[test]
fn zone_lookup() {
    let mut chain = Chain::new(&easy_settings(Bytes::empty()));
    assert!(chain.add_block(block(0, T0, hash_of(1), &[1], Some(tx(&[5], &[1], "a")))));
    assert!(chain.is_zone_in_blockchain(&bytes(&[5])));
    assert!(chain.is_zone_in_blockchain(&bytes(&[5])));
    assert!(!chain.is_zone_in_blockchain(&bytes(&[6])));
}

#[test]
fn domain_transaction_is_the_latest() {
    let mut chain = Chain::new(&easy_settings(Bytes::empty()));
    assert!(chain.add_block(block(0, T0, hash_of(1), &[1], None)));
    assert!(chain.add_block(block(1, T0 + 1, hash_of(2), &[1], Some(tx(&[5], &[1], "first")))));
    assert!(chain.add_block(block(2, T0 + 2, hash_of(3), &[1], Some(tx(&[6], &[1], "other")))));
    assert!(chain.add_block(block(3, T0 + 3, hash_of(4), &[1], Some(tx(&[5], &[1], "second")))));
    assert_eq!(chain.get_domain_info("name", &bytes(&[5])), Some(String::from("second")));
    assert_eq!(chain.get_domain_info("", &bytes(&[5])), None);
    assert_eq!(chain.get_domain_info("name", &bytes(&[7])), None);
    let t = chain.get_domain_transaction("name", &bytes(&[6])).unwrap();
    assert_eq!(t.data, "other");
}

#[test]
fn add_block_only_takes_the_next_index() {
    let mut chain = Chain::new(&easy_settings(Bytes::empty()));
    assert!(!chain.add_block(block(1, T0, hash_of(1), &[1], None)));
    assert!(chain.last_block().is_none());
    assert_eq!(chain.height(), 0);
    assert!(chain.last_hash().is_empty());
    assert!(chain.add_block(block(0, T0, hash_of(1), &[1], None)));
    assert!(!chain.add_block(block(0, T0, hash_of(2), &[1], None)));
    assert_eq!(chain.last_hash().as_slice(), hash_of(1).as_slice());
    assert_eq!(chain.get_block(0).unwrap().hash.as_slice(), hash_of(1).as_slice());
    assert!(chain.get_block(1).is_none());
    assert!(chain.get_last_full_block().is_none());
}

#[test]
fn max_height_only_grows() {
    let mut chain = Chain::new(&easy_settings(Bytes::empty()));
    assert_eq!(chain.max_height(), 0);
    chain.update_max_height(7);
    assert_eq!(chain.max_height(), 7);
    chain.update_max_height(3);
    assert_eq!(chain.max_height(), 7);
}

#[test]
fn restore_from_stored_blocks() {
    let settings = easy_settings(Bytes::empty());
    let blocks = vec![
        block(0, T0, hash_of(1), &[1], None),
        block(1, T0 + 1, hash_of(2), &[1], Some(tx(&[5], &[1], "a"))),
        block(2, T0 + 2, hash_of(3), &[1], None),
    ];
    let chain = Chain::restore(&settings, blocks).unwrap();
    assert_eq!(chain.height(), 2);
    assert_eq!(chain.max_height(), 2);
    assert_eq!(chain.get_last_full_block().unwrap().index, 1);
    let empty = Chain::restore(&settings, Vec::new()).unwrap();
    assert!(empty.last_block().is_none());
}

#[test]
fn restore_rejects_gaps_and_newer_versions() {
    let settings = easy_settings(Bytes::empty());
    let gap = vec![block(0, T0, hash_of(1), &[1], None), block(2, T0, hash_of(2), &[1], None)];
    assert_eq!(Chain::restore(&settings, gap).err(), Some(ChainError::BrokenStore));
    let mut newer = block(1, T0, hash_of(2), &[1], None);
    newer.version = CHAIN_VERSION + 1;
    let blocks = vec![block(0, T0, hash_of(1), &[1], None), newer];
    assert_eq!(
        Chain::restore(&settings, blocks).err(),
        Some(ChainError::UnsupportedVersion { stored: CHAIN_VERSION + 1, running: CHAIN_VERSION })
    );
}

#[test]
fn zone_of_a_domain() {
    assert_eq!(domain_zone("mail.example"), Some(String::from("example")));
    assert_eq!(domain_zone("ex.ample"), Some(String::from("ample")));
    assert_eq!(domain_zone("a."), Some(String::from("")));
    assert_eq!(domain_zone("example"), None);
    assert_eq!(domain_zone("a.b.c"), None);
    assert_eq!(domain_zone(""), None);
}

use block_chain::block::{Block, MiningError, SearchStep};
use block_chain::blockchain::{Blockchain, ChainError, GENESIS_DIFFICULTY};
use block_chain::mining::{Mining, SealError};
use block_chain::text::{hex_string, meets_difficulty, push_decimal, push_framed};
use block_chain::transaction::{build_pool, Transaction};
use block_chain::wallet::{Wallet, INITIAL_BALANCE};

fn hex(bytes: &[u8]) -> String {
    bytes.iter().map(|b| format!("{:02x}", b)).collect()
}

fn wallet(name: &str) -> Wallet {
    Wallet::new(name.to_string(), name.to_string()).expect("a valid key")
}

fn fixed_block() -> Block {
    Block {
        index: 1,
        timestamp: 5,
        date_time: "d".to_string(),
        proof_of_work: 7,
        transactions: vec![],
        previous_hash: "ab".to_string(),
        hash: String::new(),
    }
}

fn plain_transaction() -> Transaction {
    Transaction {
        sender: "a".to_string(),
        recipient: "b".to_string(),
        amount: 12,
        signature: "ff".to_string(),
    }
}

#[test]
fn genesis_chain_has_one_block_with_four_zeros() {
    let chain = Blockchain::new(4).expect("genesis is mined");
    assert_eq!(chain.chain.len(), 1);
    let genesis = &chain.chain[0];
    assert!(genesis.hash.starts_with("0000"));
    assert!(genesis.verify());
    assert_eq!(genesis.index, 0);
    assert_eq!(genesis.previous_hash, "");
    assert!(genesis.transactions.is_empty());
    assert_eq!(chain.difficulty(), 4);
}

#[test]
fn genesis_difficulty_ignores_chain_difficulty() {
    let chain = Blockchain::new(1).expect("genesis is mined");
    assert_eq!(GENESIS_DIFFICULTY, 4);
    assert!(chain.chain[0].hash.starts_with("0000"));
    assert_eq!(chain.difficulty(), 1);
}

#[test]
fn block_with_wrong_previous_hash_is_rejected() {
    let mut chain = Blockchain::new(2).expect("genesis is mined");
    let mut block = Block::new(1, vec![], "not the tip".to_string());
    block.mine(2, 0).expect("mined");
    assert!(block.verify());
    assert_eq!(chain.add_block(block), Err(ChainError::BrokenLink));
    assert_eq!(chain.chain.len(), 1);
}

#[test]
fn block_with_tampered_hash_is_rejected() {
    let mut chain = Blockchain::new(2).expect("genesis is mined");
    let mut block = Block::new(1, vec![], chain.tip_hash().clone());
    block.mine(2, 0).expect("mined");
    block.proof_of_work += 1;
    assert_eq!(chain.add_block(block), Err(ChainError::InvalidHash));
    assert_eq!(chain.chain.len(), 1);
}

#[test]
fn appended_blocks_are_linked() {
    let mut chain = Blockchain::new(2).expect("genesis is mined");
    for i in 1..4 {
        let mut block = Block::new(i, vec![], chain.tip_hash().clone());
        block.mine(2, 10).expect("mined");
        assert_eq!(chain.add_block(block), Ok(()));
    }
    assert_eq!(chain.chain.len(), 4);
    for i in 1..chain.chain.len() {
        assert_eq!(chain.chain[i].previous_hash, chain.chain[i - 1].hash);
        assert!(chain.chain[i].verify());
    }
}

#[test]
fn mined_block_verifies_and_meets_difficulty() {
    for difficulty in 0..4 {
        let mut block = fixed_block();
        block.mine(difficulty, 100).expect("mined");
        assert!(block.verify());
        assert!(block.hash.starts_with(&"0".repeat(difficulty)));
        assert!(block.proof_of_work >= 100);
        assert_eq!(block.index, 1);
        assert_eq!(block.previous_hash, "ab");
    }
}

#[test]
fn mining_takes_the_first_good_nonce() {
    let mut block = fixed_block();
    block.mine(2, 0).expect("mined");
    for n in 0..block.proof_of_work {
        assert!(!block.hash_with_nonce(n).starts_with("00"));
    }
}

#[test]
fn search_gives_up_past_the_range() {
    let block = fixed_block();
    assert_eq!(block.find_nonce(65, 0, 20), None);
    let found = block.find_nonce(0, 3, 20).expect("difficulty zero");
    assert_eq!(found.0, 3);
    assert_eq!(found.1, block.hash_with_nonce(3));
    assert_eq!(MiningError::NoncesExhausted, MiningError::NoncesExhausted);
}

#[test]
fn digest_of_a_block_without_transactions() {
    let block = fixed_block();
    assert_eq!(
        block.generate_block_hash(),
        "e899cbe1c3abd1081035582b3827296eecc7a6748f0de40428bd81cee5a482a7"
    );
}

#[test]
fn digest_of_a_block_with_a_transaction() {
    let mut block = fixed_block();
    block.transactions.push(plain_transaction());
    assert_eq!(
        block.generate_block_hash(),
        "77094e2cb28232e17557a75de3122144eeb60765f1079e1d9581febc03025aa8"
    );
}

#[test]
fn digest_ignores_the_stored_hash_and_is_deterministic() {
    let mut block = fixed_block();
    let first = block.generate_block_hash();
    block.hash = "anything".to_string();
    assert_eq!(block.generate_block_hash(), first);
    assert_eq!(block.generate_block_hash(), block.generate_block_hash());
    assert_eq!(first.len(), 64);
}

#[test]
fn digest_changes_with_any_field() {
    let base = fixed_block();
    let h = base.generate_block_hash();
    for nonce in [0u64, 6, 8, 70, u64::MAX] {
        assert_ne!(base.hash_with_nonce(nonce), h);
    }
    let mut b = fixed_block();
    b.previous_hash = "ac".to_string();
    assert_ne!(b.generate_block_hash(), h);
    let mut b = fixed_block();
    b.transactions.push(plain_transaction());
    let with_one = b.generate_block_hash();
    assert_ne!(with_one, h);
    b.transactions[0].amount = 13;
    assert_ne!(b.generate_block_hash(), with_one);
    let mut b = fixed_block();
    b.index = 2;
    assert_ne!(b.generate_block_hash(), h);
    let mut b = fixed_block();
    b.timestamp = 6;
    assert_ne!(b.generate_block_hash(), h);
}

#[test]
fn verify_detects_a_wrong_hash() {
    let mut block = fixed_block();
    assert!(!block.verify());
    block.hash = block.generate_block_hash();
    assert!(block.verify());
    block.previous_hash.push('x');
    assert!(!block.verify());
}

#[test]
fn exactly_one_claim_wins() {
    let mut arena = Mining::new();
    assert!(!arena.mined);
    assert!(arena.try_claim(5, "0abc".to_string()));
    for i in 0..50u64 {
        assert!(!arena.try_claim(i, format!("{}", i)));
    }
    assert!(arena.mined);
    assert_eq!(arena.proof_of_work, 5);
    assert_eq!(arena.hash, "0abc");
    assert_eq!(arena.consensus, 51);
}

#[test]
fn finalize_requires_a_consistent_solution() {
    let arena = Mining::new();
    assert_eq!(arena.finalize(fixed_block()).err(), Some(SealError::Unsolved));

    let mut wrong = Mining::new();
    wrong.try_claim(9, "00ff".to_string());
    assert_eq!(wrong.finalize(fixed_block()).err(), Some(SealError::Rejected));

    let mut worker_copy = fixed_block();
    worker_copy.mine(2, 1000).expect("mined");
    let mut arena = Mining::new();
    arena.try_claim(worker_copy.proof_of_work, worker_copy.hash.clone());
    let sealed = arena.finalize(fixed_block()).expect("consistent");
    assert_eq!(sealed.hash, worker_copy.hash);
    assert_eq!(sealed.proof_of_work, worker_copy.proof_of_work);
    assert!(sealed.verify());
}

#[test]
fn wallet_keys_come_from_the_secret() {
    let w = Wallet::new("Carol".to_string(), "abc".to_string()).expect("valid");
    assert_eq!(
        hex(w.sec_key()),
        "ba7816bf8f01cfea414140de5dae2223b00361a396177a9cb410ff61f20015ad"
    );
    assert_eq!(w.pub_key().len(), 33);
    assert!(w.pub_key()[0] == 2 || w.pub_key()[0] == 3);
    assert_eq!(w.name(), "Carol");
    assert_eq!(w.balance(), INITIAL_BALANCE);
    let again = Wallet::new("Carol".to_string(), "abc".to_string()).expect("valid");
    assert_eq!(again.pub_key(), w.pub_key());
}

#[test]
fn wallet_balance_updates() {
    let mut w = wallet("Alice");
    w.update_balance(30);
    assert_eq!(w.balance(), 970);
    w.update_balance(-50);
    assert_eq!(w.balance(), 1020);
}

#[test]
fn transaction_message_is_the_digest_of_its_fields() {
    let t = plain_transaction();
    assert_eq!(
        hex(&t.create_message()),
        "288fb5e6b5844255165d734e58801b3cd005164561f7430aa7ada25f953dc395"
    );
    assert_eq!(t.amount(), 12);
    assert_eq!(t.sender(), "a");
    assert_eq!(t.recipient(), "b");
}

#[test]
fn signed_transaction_verifies_and_alterations_fail() {
    let alice = wallet("Alice");
    let bob = wallet("Bob");
    let t = Transaction::new("Alice".to_string(), "Bob".to_string(), 40, &alice);
    assert!(!t.signature.is_empty());
    assert!(t.verify(alice.pub_key()));
    assert!(!t.verify(bob.pub_key()));

    let mut changed = Transaction::new("Alice".to_string(), "Bob".to_string(), 40, &alice);
    changed.amount = 41;
    assert!(!changed.verify(alice.pub_key()));

    let mut changed = Transaction::new("Alice".to_string(), "Bob".to_string(), 40, &alice);
    changed.sender = "Mallory".to_string();
    assert!(!changed.verify(alice.pub_key()));

    let mut changed = Transaction::new("Alice".to_string(), "Bob".to_string(), 40, &alice);
    changed.recipient = "Mallory".to_string();
    assert!(!changed.verify(alice.pub_key()));
}

#[test]
fn signing_is_deterministic() {
    let alice = wallet("Alice");
    let a = Transaction::new("x".to_string(), "y".to_string(), 7, &alice);
    let b = Transaction::new("x".to_string(), "y".to_string(), 7, &alice);
    assert_eq!(a.signature, b.signature);
}

#[test]
fn malformed_signature_does_not_verify() {
    let alice = wallet("Alice");
    let mut t = Transaction::new("x".to_string(), "y".to_string(), 7, &alice);
    t.signature = "zz".to_string();
    assert!(!t.verify(alice.pub_key()));
    t.signature = String::new();
    assert!(!t.verify(alice.pub_key()));
}

#[test]
fn check_balance_compares_amount_and_balance() {
    let alice = wallet("Alice");
    let t = Transaction::new("a".to_string(), "b".to_string(), 1000, &alice);
    assert!(t.check_balance(&alice));
    let t = Transaction::new("a".to_string(), "b".to_string(), 1001, &alice);
    assert!(!t.check_balance(&alice));
    let mut poor = wallet("Alice");
    poor.update_balance(1001);
    let t = Transaction::new("a".to_string(), "b".to_string(), 0, &alice);
    assert!(!t.check_balance(&poor));
}

#[test]
fn unaffordable_transactions_leave_the_pool() {
    let alice = wallet("Alice");
    let candidates = vec![
        Transaction::new("Alice".to_string(), "Bob".to_string(), 10, &alice),
        Transaction::new("Alice".to_string(), "Bob".to_string(), 2000, &alice),
        Transaction::new("Alice".to_string(), "Bob".to_string(), 30, &alice),
        Transaction::new("Alice".to_string(), "Bob".to_string(), 1001, &alice),
    ];
    let pool = build_pool(candidates, &alice);
    assert_eq!(pool.len(), 2);
    assert_eq!(pool[0].amount(), 10);
    assert_eq!(pool[1].amount(), 30);
}

#[test]
fn badly_signed_transactions_leave_the_pool() {
    let alice = wallet("Alice");
    let bob = wallet("Bob");
    let candidates = vec![
        Transaction::new("Alice".to_string(), "Bob".to_string(), 10, &bob),
        Transaction::new("Alice".to_string(), "Bob".to_string(), 20, &alice),
    ];
    let pool = build_pool(candidates, &alice);
    assert_eq!(pool.len(), 1);
    assert_eq!(pool[0].amount(), 20);
    assert!(build_pool(vec![], &alice).is_empty());
}

#[test]
fn text_helpers_render_exactly() {
    assert_eq!(hex_string(&vec![0x00, 0xab, 0xff, 0x10]), "00abff10");
    assert_eq!(hex_string(&vec![]), "");
    let mut s = String::from("n=");
    push_decimal(&mut s, 12345);
    push_decimal(&mut s, 0);
    assert_eq!(s, "n=123450");
    let mut s = String::new();
    push_decimal(&mut s, u64::MAX);
    assert_eq!(s, "18446744073709551615");
    let mut s = String::new();
    push_framed(&mut s, &"héllo".to_string());
    assert_eq!(s, "5:héllo");
}

#[test]
fn difficulty_test_counts_leading_zeros() {
    assert!(meets_difficulty(&"000a".to_string(), 3));
    assert!(!meets_difficulty(&"000a".to_string(), 4));
    assert!(!meets_difficulty(&"00".to_string(), 3));
    assert!(meets_difficulty(&"".to_string(), 0));
    assert!(!meets_difficulty(&"a000".to_string(), 1));
}

#[test]
fn chain_from_a_given_time_is_reproducible() {
    let a = Blockchain::starting_at(3, 5, "d".to_string()).expect("mined");
    let b = Blockchain::starting_at(3, 5, "d".to_string()).expect("mined");
    assert_eq!(a.chain.len(), 1);
    let g = &a.chain[0];
    assert_eq!(g.timestamp, 5);
    assert_eq!(g.date_time, "d");
    assert!(g.hash.starts_with("0000"));
    assert!(g.verify());
    assert_eq!(g.proof_of_work, b.chain[0].proof_of_work);
    assert_eq!(g.hash, b.chain[0].hash);
    for n in 0..g.proof_of_work {
        assert!(!g.hash_with_nonce(n).starts_with("0000"));
    }
    assert_eq!(a.difficulty(), 3);
}

#[test]
fn stamped_block_is_unmined() {
    let b = Block::stamped(2, vec![plain_transaction()], "ab".to_string(), 9, "t".to_string());
    assert_eq!(b.index, 2);
    assert_eq!(b.timestamp, 9);
    assert_eq!(b.date_time, "t");
    assert_eq!(b.proof_of_work, 0);
    assert_eq!(b.hash, "");
    assert_eq!(b.transactions.len(), 1);
    assert!(!b.verify());
}

#[test]
fn chunked_search_walks_the_nonces() {
    let block = fixed_block();
    assert_eq!(block.search_chunk(65, 0, 10), SearchStep::Next(10));
    assert_eq!(block.search_chunk(65, u64::MAX - 3, 10), SearchStep::Exhausted);
    assert_eq!(block.search_chunk(65, u64::MAX, 1), SearchStep::Exhausted);
    match block.search_chunk(0, 42, 5) {
        SearchStep::Found(n, h) => {
            assert_eq!(n, 42);
            assert_eq!(h, block.hash_with_nonce(42));
        }
        other => panic!("unexpected {:?}", other),
    }
    let mut start = 0u64;
    let found = loop {
        match block.search_chunk(2, start, 16) {
            SearchStep::Found(n, _) => break n,
            SearchStep::Next(next) => start = next,
            SearchStep::Exhausted => unreachable!(),
        }
    };
    let mut mined = fixed_block();
    mined.mine(2, 0).expect("mined");
    assert_eq!(found, mined.proof_of_work);
}

#[test]
fn block_below_chain_difficulty_is_rejected() {
    let mut chain = Blockchain::new(3).expect("genesis is mined");
    let mut block = Block::new(1, vec![], chain.tip_hash().clone());
    let mut nonce = 0u64;
    loop {
        block.mine(0, nonce).expect("difficulty zero");
        if !block.hash.starts_with("000") {
            break;
        }
        nonce += 1;
    }
    assert!(block.verify());
    assert_eq!(chain.add_block(block), Err(ChainError::InsufficientWork));
    assert_eq!(chain.chain.len(), 1);
}

#[test]
fn shifted_field_boundaries_change_the_message() {
    let alice = wallet("Alice");
    let t1 = Transaction::new("ab".to_string(), "c".to_string(), 5, &alice);
    let mut t2 = t1.clone();
    t2.sender = "a".to_string();
    t2.recipient = "bc".to_string();
    assert_ne!(t1.create_message(), t2.create_message());
    assert!(t1.verify(alice.pub_key()));
    assert!(!t2.verify(alice.pub_key()));
    let t3 = Transaction::new("a".to_string(), "b1".to_string(), 2, &alice);
    let t4 = Transaction::new("a".to_string(), "b".to_string(), 12, &alice);
    assert_ne!(t3.create_message(), t4.create_message());
}

#[test]
fn fresh_block_does_not_verify_and_digests_are_64_hex() {
    let b = Block::new(0, vec![], String::new());
    assert!(!b.verify());
    let h = b.generate_block_hash();
    assert_eq!(h.len(), 64);
    assert!(h.chars().all(|c| c.is_ascii_digit() || ('a'..='f').contains(&c)));
}

#[test]
fn loaded_blocks_are_rechecked() {
    let mut chain = Blockchain::new(2).expect("genesis is mined");
    let mut block = Block::new(1, vec![], chain.tip_hash().clone());
    block.mine(2, 0).expect("mined");
    chain.add_block(block).expect("valid");
    let copy = || chain.chain.clone();

    let reloaded = Blockchain::from_blocks(copy(), 2).expect("valid chain");
    assert_eq!(reloaded.chain.len(), 2);
    assert_eq!(reloaded.chain[1].hash, chain.chain[1].hash);
    assert_eq!(reloaded.difficulty(), 2);

    assert!(Blockchain::from_blocks(vec![], 2).is_none());
    let mut tampered = copy();
    tampered[1].proof_of_work += 1;
    assert!(Blockchain::from_blocks(tampered, 2).is_none());
    let mut unlinked = copy();
    unlinked.swap(0, 1);
    assert!(Blockchain::from_blocks(unlinked, 2).is_none());
    assert!(Blockchain::from_blocks(copy(), 64).is_none());
    let mut bad_genesis = copy();
    bad_genesis[0].index = 1;
    assert!(Blockchain::from_blocks(bad_genesis, 2).is_none());
}

use saito::block::Block;
use saito::burnfee::BurnFee;
use saito::goldenticket::GoldenTicket;
use saito::mempool::Mempool;
use saito::miner::Miner;
use saito::slip::Slip;
use saito::transaction::{Transaction, TransactionType};
use saito::wallet::Wallet;

fn funded_tx(owner: Vec<u8>, amount: i64) -> Transaction {
    let mut tx = Transaction::new(TransactionType::Base);
    let mut from = Slip::new(owner.clone());
    from.amount = amount;
    tx.add_from_slip(from);
    let mut to = Slip::new(owner);
    to.amount = amount;
    tx.add_to_slip(to);
    tx
}

#[test]
fn trivial_difficulty_yields_golden_ticket() {
    let wallet = Wallet::new();
    let winner_key = vec![7u8; 33];
    let mut prev = Block::new(Vec::new(), vec![3u8; 33]);
    prev.transactions.push(funded_tx(winner_key.clone(), 10));

    let mut burnfee = BurnFee::new();
    burnfee.last_block_delta = 0;

    let mut miner = Miner::new();
    assert_eq!(miner.difficulty, 200);
    assert_eq!(miner.paysplit, 50);
    miner.difficulty = 0;
    miner.can_i_mine = true;

    let tx = miner
        .attempt_solution(&prev, &wallet, &burnfee)
        .expect("zero difficulty always matches");
    assert!(!miner.can_i_mine);
    assert_eq!(tx.tx_type, TransactionType::GoldenTicket);
    assert!(tx.from.len() >= 1);
    let n = tx.to.len();
    assert!(n >= 2);
    // the creator paid a burn fee of 10 * 1000 at delta 0 and earned no
    // fees, so the pool is 10_000, split evenly at paysplit 50
    assert_eq!(tx.to[n - 2].address, wallet.return_publickey());
    assert_eq!(tx.to[n - 2].amount, 5_000);
    assert_eq!(tx.to[n - 1].address, winner_key);
    assert_eq!(tx.to[n - 1].amount, 5_000);
    assert_eq!(tx.sig.len(), 64);
}

#[test]
fn winner_defaults_to_creator_without_value() {
    let wallet = Wallet::new();
    let creator = vec![3u8; 33];
    let prev = Block::new(Vec::new(), creator.clone());
    let burnfee = BurnFee::new();
    let mut miner = Miner::new();
    miner.difficulty = 0;
    let tx = miner
        .attempt_solution(&prev, &wallet, &burnfee)
        .expect("zero difficulty always matches");
    let n = tx.to.len();
    assert_eq!(tx.to[n - 1].address, creator);
}

#[test]
fn start_mining_pushes_reward_into_mempool() {
    let wallet = Wallet::new();
    let prev = Block::new(Vec::new(), vec![3u8; 33]);
    let burnfee = BurnFee::new();
    let mut miner = Miner::new();
    miner.difficulty = 0;
    let mut mempool = Mempool::new();
    let found = miner.start_mining(&mut mempool, &prev, &wallet, &burnfee, 10);
    assert!(found);
    assert_eq!(mempool.return_transaction_length(), 1);
    assert_eq!(mempool.return_transactions()[0].tx_type, TransactionType::GoldenTicket);
}

#[test]
fn realistic_difficulty_rarely_matches_and_leaves_mempool_alone() {
    let wallet = Wallet::new();
    let prev = Block::new(Vec::new(), vec![3u8; 33]);
    let burnfee = BurnFee::new();
    let mut miner = Miner::new();
    // 32 leading bytes can never match by luck
    miner.difficulty = 3150;
    let mut mempool = Mempool::new();
    let found = miner.start_mining(&mut mempool, &prev, &wallet, &burnfee, 3);
    assert!(!found);
    assert_eq!(mempool.return_transaction_length(), 0);
}

#[test]
fn stop_mining_clears_the_flag() {
    let mut miner = Miner::new();
    miner.can_i_mine = true;
    miner.stop_mining();
    assert!(!miner.can_i_mine);
}

#[test]
fn golden_ticket_votes_move_difficulty_and_paysplit() {
    let mut prev = Block::new(Vec::new(), vec![3u8; 33]);
    prev.difficulty = 200;
    prev.paysplit = 50;
    let approve = GoldenTicket {
        target: vec![1u8; 32],
        vote: 1,
        random: vec![2u8; 32],
        publickey: vec![3u8; 33],
    };
    assert_eq!(approve.calculate_difficulty(&prev), 201);
    assert_eq!(approve.calculate_paysplit(&prev), 51);
    let reject = GoldenTicket { vote: 0, ..approve };
    assert_eq!(reject.calculate_difficulty(&prev), 199);
    assert_eq!(reject.calculate_paysplit(&prev), 49);
}

use saito::block::Block;
use saito::blockchain::Blockchain;
use saito::mempool::Mempool;
use saito::slip::Slip;
use saito::transaction::{Transaction, TransactionType};
use saito::wallet::Wallet;

#[test]
fn genesis_block_accepted_without_validation() {
    let mut blockchain = Blockchain::new();
    let mut wallet = Wallet::new();
    blockchain.initialize(&mut wallet, Vec::new());
    assert_eq!(blockchain.return_last_block_id(), 0);
    assert_eq!(blockchain.return_last_tx_id(), 1);
    assert_eq!(blockchain.return_last_slip_id(), 1);

    let mut block = Block::new(Vec::new(), wallet.return_publickey());
    block.bundle(
        &blockchain.blocks,
        Vec::new(),
        blockchain.return_last_tx_id(),
        blockchain.return_last_slip_id(),
    );
    block.set_merkle_root();
    assert!(blockchain.validate_block(&block));
    block.update_slips();
    blockchain.add_block(block);
    blockchain.increment_block_id();

    assert_eq!(blockchain.return_last_block_id(), 1);
    assert_eq!(blockchain.return_blocks_length(), 1);
    // a genesis block with no outputs leaves the shashmap empty
    assert!(blockchain.shashmap.get(&vec![0u8, 1, 2]).is_none());
    assert_eq!(wallet.return_balance(), 0);
}

#[test]
fn add_block_registers_output_slips() {
    let mut blockchain = Blockchain::new();
    let owner = vec![8u8; 33];
    let mut block = Block::new(Vec::new(), owner.clone());
    block.id = 1;
    let mut tx = Transaction::new(TransactionType::Base);
    let mut from = Slip::new(owner.clone());
    from.amount = 5;
    tx.add_from_slip(from);
    let mut to = Slip::new(owner);
    to.amount = 5;
    tx.add_to_slip(to);
    block.transactions.push(tx);
    block.update_slips();
    let confirmed_index = block.transactions[0].to[0].return_index();
    let spent_index = block.transactions[0].from[0].return_index();
    blockchain.add_block(block);
    assert_eq!(blockchain.shashmap.get(&confirmed_index), Some(1));
    assert!(blockchain.shashmap.get(&spent_index).is_none());
}

#[test]
fn validate_block_requires_known_inputs_past_bootstrap() {
    let mut blockchain = Blockchain::new();
    let owner = vec![8u8; 33];

    let b1 = Block::new(Vec::new(), owner.clone());
    blockchain.add_block(b1);

    // a block with id 3 referencing an unknown input slip is rejected
    let tip_hash = blockchain.return_previous_hash();
    let tip_timestamp = blockchain.blocks[0].return_timestamp();
    let mut b3 = Block::new(tip_hash, owner.clone());
    b3.id = 3;
    b3.timestamp = tip_timestamp + 5;
    let mut tx = Transaction::new(TransactionType::Base);
    let mut from = Slip::new(owner.clone());
    from.amount = 5;
    from.block_id = 1;
    tx.add_from_slip(from);
    let mut to = Slip::new(owner.clone());
    to.amount = 5;
    tx.add_to_slip(to);
    b3.transactions.push(tx);
    b3.set_merkle_root();
    assert!(!blockchain.validate_block(&b3));

    // once the same slip is confirmed in the shashmap, the block passes
    let registered = b3.transactions[0].from[0].clone();
    blockchain.shashmap.insert(registered.return_index(), 1);
    assert!(blockchain.validate_block(&b3));
}

#[test]
fn initialize_replays_blocks_into_wallet_and_counters() {
    let mut blockchain = Blockchain::new();
    let mut wallet = Wallet::new();
    let me = wallet.return_publickey();

    let mut block = Block::new(Vec::new(), me.clone());
    block.id = 6;
    let mut tx = Transaction::new(TransactionType::Base);
    let mut from = Slip::new(vec![9u8; 33]);
    from.amount = 80;
    tx.add_from_slip(from);
    let mut to = Slip::new(me);
    to.amount = 80;
    tx.add_to_slip(to);
    block.transactions.push(tx);
    block.update_slips();

    blockchain.initialize(&mut wallet, vec![block]);
    assert_eq!(wallet.return_balance(), 80);
    assert_eq!(blockchain.return_last_block_id(), 6);
    assert_eq!(blockchain.return_last_tx_id(), 1 + 1);
    assert_eq!(blockchain.return_last_slip_id(), 2 + 1);
    assert_eq!(blockchain.return_blocks_length(), 1);
}

#[test]
fn mempool_holds_and_clears_transactions() {
    let mut mempool = Mempool::new();
    assert_eq!(mempool.return_transaction_length(), 0);
    mempool.add_transaction(Transaction::new(TransactionType::Base));
    mempool.add_transaction(Transaction::new(TransactionType::GoldenTicket));
    assert_eq!(mempool.return_transaction_length(), 2);
    let snapshot = mempool.return_transactions();
    assert_eq!(snapshot.len(), 2);
    assert_eq!(snapshot[1].tx_type, TransactionType::GoldenTicket);
    mempool.clear_tx_mempool();
    assert_eq!(mempool.return_transaction_length(), 0);
}

#[test]
fn shashmap_insert_replaces_earlier_bindings() {
    let mut blockchain = Blockchain::new();
    let index = vec![1u8, 2, 3];
    blockchain.shashmap.insert(index.clone(), 4);
    assert_eq!(blockchain.shashmap.get(&index), Some(4));
    blockchain.shashmap.insert(index.clone(), 9);
    assert_eq!(blockchain.shashmap.get(&index), Some(9));
    assert!(blockchain.shashmap.get(&vec![1u8, 2]).is_none());
}

#[test]
fn counters_update_as_directed() {
    let mut blockchain = Blockchain::new();
    blockchain.update_tx_id(41);
    blockchain.update_slip_id(97);
    blockchain.increment_block_id();
    blockchain.increment_block_id();
    assert_eq!(blockchain.return_last_tx_id(), 41);
    assert_eq!(blockchain.return_last_slip_id(), 97);
    assert_eq!(blockchain.return_last_block_id(), 2);
}

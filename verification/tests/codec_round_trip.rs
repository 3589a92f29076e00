use saito::block::Block;
use saito::codec::{decode_block, encode_block};
use saito::slip::Slip;
use saito::transaction::{Transaction, TransactionType};

fn payload_tx(kind: TransactionType, payload: Vec<u8>) -> Transaction {
    let mut tx = Transaction::new(kind);
    let mut from = Slip::new(vec![11u8; 33]);
    from.amount = 250;
    from.block_id = 3;
    from.transaction_id = 9;
    from.id = 14;
    from.block_hash = vec![0xab; 32];
    tx.add_from_slip(from);
    let mut to = Slip::new(vec![12u8; 33]);
    to.amount = 249;
    tx.add_to_slip(to);
    tx.msg = payload;
    tx.id = 400_000;
    tx
}

#[test]
fn round_trip_empty_block() {
    let block = Block::new(Vec::new(), vec![9u8; 33]);
    let bytes = encode_block(&block);
    let decoded = decode_block(&bytes).expect("an encoded block decodes");
    assert_eq!(decoded, block);
}

#[test]
fn round_trip_block_with_transactions_and_payloads() {
    let mut block = Block::new(vec![1u8; 32], vec![9u8; 33]);
    block.id = 77;
    block.difficulty = 231;
    block.paysplit = 49;
    block.treasury = 123_456_789;
    block.coinbase = 55;
    block.reclaimed = 12;
    block.transactions.push(payload_tx(TransactionType::Base, Vec::new()));
    block.transactions.push(payload_tx(TransactionType::GoldenTicket, vec![0u8, 1, 2, 3, 255]));
    block.transactions.push(payload_tx(TransactionType::Rebroadcast, vec![7u8; 1024]));
    block.set_merkle_root();
    let bytes = encode_block(&block);
    let decoded = decode_block(&bytes).expect("an encoded block decodes");
    assert_eq!(decoded, block);
    // and the re-encoding is byte-identical
    assert_eq!(encode_block(&decoded), bytes);
}

#[test]
fn round_trip_negative_amount_slip() {
    let mut block = Block::new(Vec::new(), vec![9u8; 33]);
    let mut tx = payload_tx(TransactionType::Fee, vec![5u8]);
    tx.from[0].amount = -77;
    block.transactions.push(tx);
    let bytes = encode_block(&block);
    let decoded = decode_block(&bytes).expect("an encoded block decodes");
    assert_eq!(decoded.transactions[0].from[0].amount, -77);
    assert_eq!(decoded, block);
}

#[test]
fn decode_rejects_truncated_and_padded_input() {
    let block = Block::new(Vec::new(), vec![9u8; 33]);
    let bytes = encode_block(&block);
    let truncated: Vec<u8> = bytes[..bytes.len() - 1].to_vec();
    assert!(decode_block(&truncated).is_none());
    let mut padded = bytes.clone();
    padded.push(0);
    assert!(decode_block(&padded).is_none());
    assert!(decode_block(&Vec::new()).is_none());
}

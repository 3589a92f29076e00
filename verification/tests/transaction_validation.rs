use saito::slip::Slip;
use saito::transaction::{Transaction, TransactionType};

fn slip_with(address: Vec<u8>, amount: i64) -> Slip {
    let mut s = Slip::new(address);
    s.amount = amount;
    s
}

#[test]
fn base_validate_rejects_empty_from() {
    let mut tx = Transaction::new(TransactionType::Base);
    tx.add_to_slip(slip_with(vec![1u8; 33], 10));
    assert!(!tx.validate());
}

#[test]
fn base_validate_rejects_empty_to() {
    let mut tx = Transaction::new(TransactionType::Base);
    tx.add_from_slip(slip_with(vec![1u8; 33], 10));
    assert!(!tx.validate());
}

#[test]
fn base_validate_rejects_negative_amount() {
    let mut tx = Transaction::new(TransactionType::Base);
    tx.add_from_slip(slip_with(vec![1u8; 33], 10));
    tx.add_to_slip(slip_with(vec![2u8; 33], -1));
    assert!(!tx.validate());

    let mut tx2 = Transaction::new(TransactionType::Base);
    tx2.add_from_slip(slip_with(vec![1u8; 33], -5));
    tx2.add_to_slip(slip_with(vec![2u8; 33], 1));
    assert!(!tx2.validate());
}

#[test]
fn base_validate_rejects_outputs_exceeding_inputs() {
    let mut tx = Transaction::new(TransactionType::Base);
    tx.add_from_slip(slip_with(vec![1u8; 33], 10));
    tx.add_to_slip(slip_with(vec![2u8; 33], 11));
    assert!(!tx.validate());
}

#[test]
fn base_validate_accepts_balanced_transaction() {
    let mut tx = Transaction::new(TransactionType::Base);
    tx.add_from_slip(slip_with(vec![1u8; 33], 10));
    tx.add_to_slip(slip_with(vec![2u8; 33], 6));
    tx.add_to_slip(slip_with(vec![1u8; 33], 4));
    assert!(tx.validate());
    // the placeholder signature plays no part in the consensus check
    assert!(tx.sig.iter().all(|b| *b == 0));
}

#[test]
fn golden_ticket_exempt_from_balance_rule() {
    let mut tx = Transaction::new(TransactionType::GoldenTicket);
    tx.add_from_slip(slip_with(vec![1u8; 33], 0));
    tx.add_to_slip(slip_with(vec![2u8; 33], 5000));
    assert!(tx.validate());

    let mut fee_tx = Transaction::new(TransactionType::Fee);
    fee_tx.add_from_slip(slip_with(vec![1u8; 33], 0));
    fee_tx.add_to_slip(slip_with(vec![2u8; 33], 7));
    assert!(fee_tx.validate());
}

#[test]
fn amount_sums_are_exact() {
    let mut tx = Transaction::new(TransactionType::Base);
    tx.add_from_slip(slip_with(vec![1u8; 33], 100));
    tx.add_from_slip(slip_with(vec![1u8; 33], 23));
    tx.add_to_slip(slip_with(vec![2u8; 33], 99));
    assert_eq!(tx.calculate_from_amount(), 123);
    assert_eq!(tx.calculate_to_amount(), 99);
}

#[test]
fn fees_usable_is_net_contribution_per_key() {
    let key_a = vec![1u8; 33];
    let key_b = vec![2u8; 33];
    let mut tx = Transaction::new(TransactionType::Base);
    tx.add_from_slip(slip_with(key_a.clone(), 100));
    tx.add_to_slip(slip_with(key_a.clone(), 30));
    tx.add_to_slip(slip_with(key_b.clone(), 60));
    assert_eq!(tx.return_fees_usable(&key_a), 70);
    assert_eq!(tx.return_fees_usable(&key_b), -60);
    assert_eq!(tx.return_fees_usable(&vec![9u8; 33]), 0);
}

#[test]
fn signature_source_covers_timestamp_and_slips_not_payload() {
    let mut tx = Transaction::new(TransactionType::Base);
    tx.add_from_slip(slip_with(vec![1u8; 33], 10));
    tx.add_to_slip(slip_with(vec![2u8; 33], 10));
    let source = tx.return_signature_source();
    // 16 timestamp bytes plus two slip encodings of 69 bytes each
    // (8 + 33 address, 8 amount, 12 ids, 8 + 0 hash).
    assert_eq!(source.len(), 16 + 2 * 69);

    let mut with_msg = tx.clone();
    with_msg.msg = vec![42u8; 17];
    assert_eq!(with_msg.return_signature_source(), source);

    let mut other_amount = tx.clone();
    other_amount.from[0].amount = 11;
    assert_ne!(other_amount.return_signature_source(), source);
}

#[test]
fn slip_index_distinguishes_slips() {
    let a = slip_with(vec![1u8; 33], 5);
    let b = slip_with(vec![1u8; 33], 6);
    let c = slip_with(vec![1u8; 33], 5);
    assert_ne!(a.return_index(), b.return_index());
    assert_eq!(a.return_index(), c.return_index());
}

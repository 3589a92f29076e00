use saito::slip::Slip;
use saito::transaction::{Transaction, TransactionType};
use saito::wallet::Wallet;

fn owned_slip(address: Vec<u8>, amount: i64, id: u32) -> Slip {
    let mut s = Slip::new(address);
    s.amount = amount;
    s.id = id;
    s
}

#[test]
fn create_transaction_splits_inputs_into_payment_and_change() {
    let mut wallet = Wallet::new();
    let me = wallet.return_publickey();
    wallet.add_input(owned_slip(me.clone(), 100, 1));

    let recipient = vec![2u8; 33];
    let tx = wallet
        .create_transaction(recipient.clone(), TransactionType::Base, 1, 50)
        .expect("one slip of 100 covers fee 1 plus amount 50");
    assert_eq!(tx.tx_type, TransactionType::Base);
    assert_eq!(tx.from.len(), 1);
    assert_eq!(tx.from[0].amount, 100);
    assert_eq!(tx.to.len(), 2);
    assert_eq!(tx.to[0].address, recipient);
    assert_eq!(tx.to[0].amount, 51);
    assert_eq!(tx.to[1].address, me);
    assert_eq!(tx.to[1].amount, 49);
    assert_eq!(tx.to[0].amount + tx.to[1].amount, 100);
    assert!(tx.validate());
}

#[test]
fn create_transaction_fails_on_insufficient_funds() {
    let mut wallet = Wallet::new();
    let me = wallet.return_publickey();
    wallet.add_input(owned_slip(me, 40, 1));
    assert!(wallet.create_transaction(vec![2u8; 33], TransactionType::Base, 1, 50).is_none());
    // the greedy cover needs the sum to strictly exceed fee plus amount
    let mut exact = Wallet::new();
    let key = exact.return_publickey();
    exact.add_input(owned_slip(key, 51, 1));
    assert!(exact.create_transaction(vec![2u8; 33], TransactionType::Base, 1, 50).is_none());
}

#[test]
fn create_transaction_selects_greedily_in_order() {
    let mut wallet = Wallet::new();
    let me = wallet.return_publickey();
    wallet.add_input(owned_slip(me.clone(), 30, 1));
    wallet.add_input(owned_slip(me.clone(), 30, 2));
    wallet.add_input(owned_slip(me.clone(), 30, 3));
    let tx = wallet
        .create_transaction(vec![2u8; 33], TransactionType::Base, 0, 40)
        .expect("two slips cover 40");
    assert_eq!(tx.from.len(), 2);
    assert_eq!(tx.from[0].id, 1);
    assert_eq!(tx.from[1].id, 2);
    assert_eq!(tx.to[1].amount, 20);
}

#[test]
fn balance_sums_spendable_inputs() {
    let mut wallet = Wallet::new();
    let me = wallet.return_publickey();
    assert_eq!(wallet.return_balance(), 0);
    wallet.add_input(owned_slip(me.clone(), 100, 1));
    wallet.add_input(owned_slip(me.clone(), 23, 2));
    assert_eq!(wallet.return_balance(), 123);
    // re-adding a slip with the same index replaces it
    wallet.add_input(owned_slip(me, 100, 1));
    assert_eq!(wallet.return_balance(), 123);
}

#[test]
fn process_payment_moves_spent_inputs_and_adds_received_outputs() {
    let mut wallet = Wallet::new();
    let me = wallet.return_publickey();
    let spent = owned_slip(me.clone(), 100, 1);
    wallet.add_input(spent.clone());
    assert_eq!(wallet.return_balance(), 100);

    let mut tx = Transaction::new(TransactionType::Base);
    tx.add_from_slip(spent);
    tx.add_to_slip(owned_slip(vec![2u8; 33], 60, 2));
    tx.add_to_slip(owned_slip(me, 40, 3));
    wallet.process_payment(vec![tx]);
    // the spent slip left the inputs; only the change came back
    assert_eq!(wallet.return_balance(), 40);
}

#[test]
fn process_payment_ignores_other_keys() {
    let mut wallet = Wallet::new();
    let mut tx = Transaction::new(TransactionType::Base);
    tx.add_from_slip(owned_slip(vec![4u8; 33], 10, 1));
    tx.add_to_slip(owned_slip(vec![5u8; 33], 10, 2));
    wallet.process_payment(vec![tx]);
    assert_eq!(wallet.return_balance(), 0);
}

#[test]
fn empty_golden_ticket_references_owner() {
    let wallet = Wallet::new();
    let tx = wallet.create_empty_golden_ticket();
    assert_eq!(tx.tx_type, TransactionType::GoldenTicket);
    assert_eq!(tx.from.len(), 1);
    assert_eq!(tx.from[0].address, wallet.return_publickey());
    assert_eq!(tx.from[0].amount, 0);
    assert!(tx.to.is_empty());
}

#[test]
fn add_output_records_history_without_touching_balance() {
    let mut wallet = Wallet::new();
    let me = wallet.return_publickey();
    wallet.add_input(owned_slip(me.clone(), 10, 1));
    wallet.add_output(owned_slip(me, 99, 2));
    assert_eq!(wallet.return_balance(), 10);
}

#[test]
fn available_inputs_require_strict_cover() {
    let mut wallet = Wallet::new();
    let me = wallet.return_publickey();
    wallet.add_input(owned_slip(me.clone(), 10, 1));
    wallet.add_input(owned_slip(me, 15, 2));
    assert!(wallet.return_available_inputs(25).is_none());
    let picked = wallet.return_available_inputs(24).expect("25 exceeds 24");
    assert_eq!(picked.len(), 2);
    let single = wallet.return_available_inputs(9).expect("10 exceeds 9");
    assert_eq!(single.len(), 1);
    assert_eq!(single[0].amount, 10);
}

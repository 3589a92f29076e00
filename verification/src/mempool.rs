//! The mempool: unconfirmed transactions awaiting inclusion.

use vstd::prelude::*;
use crate::block::clone_transactions;
use crate::transaction::{Transaction, TxV};

verus! {

/// A transient, ordered holding area for not-yet-confirmed transactions.
#[derive(Debug)]
pub struct Mempool {
    pub transactions: Vec<Transaction>,
}

impl View for Mempool {
    type V = Seq<TxV>;

    open spec fn view(&self) -> Seq<TxV> {
        self.transactions@.map_values(|t: Transaction| t@)
    }
}

impl Mempool {
    /// An empty mempool.
    pub fn new() -> (r: Mempool)
        ensures
            r@ == Seq::<TxV>::empty(),
    {
        let r = Mempool { transactions: Vec::new() };
        assert(r@ =~= Seq::<TxV>::empty());
        r
    }

    /// Appends an unconfirmed transaction.
    pub fn add_transaction(&mut self, tx: Transaction)
        ensures
            final(self)@ == old(self)@.push(tx@),
    {
        let ghost told = self.transactions@;
        self.transactions.push(tx);
        proof {
            told.lemma_push_map_commute(|t: Transaction| t@, tx);
        }
    }

    /// A snapshot copy of the pending transactions.
    pub fn return_transactions(&self) -> (r: Vec<Transaction>)
        ensures
            r@.map_values(|t: Transaction| t@) == self@,
    {
        clone_transactions(&self.transactions)
    }

    /// How many transactions are pending.
    pub fn return_transaction_length(&self) -> (r: u32)
        requires
            self@.len() <= u32::MAX,
        ensures
            r == self@.len(),
    {
        self.transactions.len() as u32
    }

    /// Drops every pending transaction at once.
    pub fn clear_tx_mempool(&mut self)
        ensures
            final(self)@ == Seq::<TxV>::empty(),
    {
        self.transactions = Vec::new();
        assert(self@ =~= Seq::<TxV>::empty());
    }
}

} // verus!

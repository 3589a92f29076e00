//! A minimal proof-of-work blockchain consensus engine.
//!
//! The crate models a chain of blocks carrying value-transfer transactions:
//! slips (spendable value references), transactions, blocks, the chain with
//! its slip-spendability index, a decaying burn fee that gates mining, a
//! mempool, a wallet, and a miner that searches for golden-ticket solutions.

pub mod block;
pub mod blockchain;
pub mod burnfee;
pub mod bytes;
pub mod crypto;
pub mod goldenticket;
pub mod helper;
pub mod mempool;
pub mod miner;
pub mod transaction;
pub mod wallet;
pub mod codec;
pub mod slip;

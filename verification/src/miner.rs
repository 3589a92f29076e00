//! The miner: the proof-of-work search and the golden-ticket reward
//! transaction it emits on success.

use vstd::prelude::*;
use crate::block::{
    spec_available_fees, spec_block_amounts_bounded, Block, BlockV,
};
use crate::burnfee::{spec_burnfee_calc, BurnFee};
use crate::bytes;
use crate::crypto;
use crate::goldenticket::GoldenTicket;
use crate::mempool::Mempool;
use crate::slip::{Slip, SlipV};
use crate::transaction::{
    spec_sig_source, spec_sum_amounts, Transaction, TransactionType,
    TxV,
};
use crate::wallet::Wallet;

verus! {

/// The mining flags and the solver's difficulty and paysplit votes, both
/// in hundredths.
#[derive(Clone, Copy, PartialEq, Eq, Structural, Debug)]
pub struct Miner {
    pub is_mining: bool,
    pub can_i_mine: bool,
    pub difficulty: u32,
    pub paysplit: u32,
}

/// How many leading hash bytes a solution must match: the difficulty in
/// hundredths, rounded to the nearest whole byte.
pub open spec fn spec_difficulty_bytes(d: u32) -> int {
    (d + 50) / 100
}

/// The state of the winning-transaction scan after visiting the
/// transactions from `i` on: the index of the first transaction whose
/// input sum beats every earlier one (`-1` while none positive), and
/// that sum.
pub open spec fn spec_win_at(ts: Seq<TxV>, i: int, best: int, best_amt: int) -> (int, int)
    decreases ts.len() - i,
{
    if i < 0 || i >= ts.len() {
        (best, best_amt)
    } else if best_amt < spec_sum_amounts(ts[i].from) {
        spec_win_at(ts, i + 1, i, spec_sum_amounts(ts[i].from))
    } else {
        spec_win_at(ts, i + 1, best, best_amt)
    }
}

/// The scan keeps its accumulator consistent: a found index names a
/// transaction whose input sum is positive.
pub proof fn lemma_win_at_props(ts: Seq<TxV>, i: int, best: int, best_amt: int)
    requires
        0 <= i <= ts.len(),
        best == -1 ==> best_amt == 0,
        best != -1 ==> 0 <= best < i && best_amt == spec_sum_amounts(ts[best].from) && best_amt
            > 0,
    ensures
        spec_win_at(ts, i, best, best_amt).0 == -1 ==> spec_win_at(ts, i, best, best_amt).1 == 0,
        spec_win_at(ts, i, best, best_amt).0 != -1 ==> 0 <= spec_win_at(ts, i, best, best_amt).0
            < ts.len() && spec_win_at(ts, i, best, best_amt).1 == spec_sum_amounts(
            ts[spec_win_at(ts, i, best, best_amt).0].from,
        ) && spec_win_at(ts, i, best, best_amt).1 > 0,
    decreases ts.len() - i,
{
    if i < ts.len() {
        if best_amt < spec_sum_amounts(ts[i].from) {
            lemma_win_at_props(ts, i + 1, i, spec_sum_amounts(ts[i].from));
        } else {
            lemma_win_at_props(ts, i + 1, best, best_amt);
        }
    }
}

/// The address the node share goes to: the owner of the first input of
/// the highest-value transaction in the previous block, or the previous
/// block's creator if no transaction carries positive value.
pub open spec fn spec_winner(prev: BlockV) -> Seq<u8> {
    if prev.transactions.len() == 0 {
        prev.creator
    } else {
        let w = spec_win_at(prev.transactions, 0, -1, 0);
        if w.0 < 0 {
            prev.creator
        } else {
            prev.transactions[w.0].from[0].address
        }
    }
}

/// The burn fee the previous block's creator paid.
pub open spec fn spec_paid_burn_fee(bf: BurnFee) -> int {
    spec_burnfee_calc(bf.fee, bf.heartbeat, bf.last_block_delta)
}

/// The reward pool: the fees available to the miner, less the creator's
/// surplus over the burn fee it paid, plus the previous block's
/// coinbase.
pub open spec fn spec_reward_pool(prev: BlockV, minerkey: Seq<u8>, bf: BurnFee) -> int {
    spec_available_fees(prev.transactions, minerkey) - (spec_available_fees(
        prev.transactions,
        prev.creator,
    ) - spec_paid_burn_fee(bf)) + prev.coinbase
}

/// Division truncating toward zero, as the reward split computes it.
pub open spec fn spec_div_trunc(a: int, b: int) -> int {
    if a >= 0 {
        a / b
    } else {
        -((-a) / b)
    }
}

/// The miner's share of the pool: the paysplit fraction, in hundredths.
pub open spec fn spec_miner_share(prev: BlockV, minerkey: Seq<u8>, bf: BurnFee, paysplit: u32)
    -> int {
    spec_div_trunc(spec_reward_pool(prev, minerkey, bf) * paysplit, 100)
}

/// The node's share: the rest of the pool.
pub open spec fn spec_node_share(prev: BlockV, minerkey: Seq<u8>, bf: BurnFee, paysplit: u32)
    -> int {
    spec_reward_pool(prev, minerkey, bf) - spec_miner_share(prev, minerkey, bf, paysplit)
}

/// A share saturated into a slip's amount range.
pub open spec fn spec_clamp_i64(x: int) -> i64 {
    if x > i64::MAX {
        i64::MAX
    } else if x < i64::MIN {
        i64::MIN
    } else {
        x as i64
    }
}

/// What the emitted golden-ticket transaction looks like: the reward
/// kind, at least one input, and its last two outputs paying the miner's
/// share to `minerkey` and the node's share to the previous block's
/// winner, both fresh unconfirmed slips.
pub open spec fn spec_golden_ticket_tx(
    t: TxV,
    prev: BlockV,
    minerkey: Seq<u8>,
    bf: BurnFee,
    paysplit: u32,
) -> bool {
    &&& t.tx_type == TransactionType::GoldenTicket
    &&& t.from.len() >= 1
    &&& t.to.len() >= 2
    &&& t.to[t.to.len() - 2] == (SlipV {
        address: minerkey,
        amount: spec_clamp_i64(spec_miner_share(prev, minerkey, bf, paysplit)),
        block_id: 0,
        transaction_id: 0,
        id: 0,
        block_hash: Seq::<u8>::empty(),
    })
    &&& t.to[t.to.len() - 1] == (SlipV {
        address: spec_winner(prev),
        amount: spec_clamp_i64(spec_node_share(prev, minerkey, bf, paysplit)),
        block_id: 0,
        transaction_id: 0,
        id: 0,
        block_hash: Seq::<u8>::empty(),
    })
}

impl Miner {
    /// An idle miner with the default difficulty and paysplit.
    pub fn new() -> (r: Miner)
        ensures
            r.is_mining == false,
            r.can_i_mine == false,
            r.difficulty == 200,
            r.paysplit == 50,
    {
        Miner { is_mining: false, can_i_mine: false, difficulty: 200, paysplit: 50 }
    }

    /// Starts mining against the chain tip, if the chain has one.
    pub fn initialize(
        &mut self,
        mempool: &mut Mempool,
        blocks: &Vec<Block>,
        wallet: &Wallet,
        burnfee: &BurnFee,
        max_attempts: u64,
    ) -> (found: bool)
        requires
            old(self).difficulty <= 3150,
            old(self).paysplit <= 100,
            blocks@.len() > 0 ==> spec_block_amounts_bounded(blocks@.last()@),
        ensures
            blocks@.len() == 0 ==> *final(self) == *old(self) && final(mempool)@ == old(mempool)@
                && !found,
            found ==> blocks@.len() > 0 && final(mempool)@.len() == old(mempool)@.len() + 1
                && spec_golden_ticket_tx(
                final(mempool)@.last(),
                blocks@.last()@,
                wallet@.publickey,
                *burnfee,
                old(self).paysplit,
            ),
            !found ==> final(mempool)@ == old(mempool)@,
    {
        if blocks.len() > 0 {
            let previous_block = &blocks[blocks.len() - 1];
            proof {
                assert(blocks@[blocks@.len() - 1] == blocks@.last());
            }
            self.start_mining(mempool, previous_block, wallet, burnfee, max_attempts)
        } else {
            false
        }
    }

    /// Attempts solutions against the previous block until one lands in
    /// the mempool as a golden-ticket transaction, the attempt budget
    /// runs out, or mining is stopped.
    pub fn start_mining(
        &mut self,
        mempool: &mut Mempool,
        previous_block: &Block,
        wallet: &Wallet,
        burnfee: &BurnFee,
        max_attempts: u64,
    ) -> (found: bool)
        requires
            old(self).difficulty <= 3150,
            old(self).paysplit <= 100,
            spec_block_amounts_bounded(previous_block@),
        ensures
            found ==> final(mempool)@.len() == old(mempool)@.len() + 1 && spec_golden_ticket_tx(
                final(mempool)@.last(),
                previous_block@,
                wallet@.publickey,
                *burnfee,
                old(self).paysplit,
            ),
            !found ==> final(mempool)@ == old(mempool)@,
            final(self).difficulty == old(self).difficulty,
            final(self).paysplit == old(self).paysplit,
            final(self).is_mining == true,
            found ==> final(self).can_i_mine == false,
    {
        self.can_i_mine = true;
        self.is_mining = true;
        let mut attempts: u64 = 0;
        while self.can_i_mine && attempts < max_attempts
            invariant
                self.difficulty == old(self).difficulty,
                self.paysplit == old(self).paysplit,
                self.difficulty <= 3150,
                self.paysplit <= 100,
                self.is_mining == true,
                spec_block_amounts_bounded(previous_block@),
                mempool@ == old(mempool)@,
                attempts <= max_attempts,
            decreases max_attempts - attempts,
        {
            match self.attempt_solution(previous_block, wallet, burnfee) {
                Some(tx) => {
                    let ghost mold = mempool@;
                    mempool.add_transaction(tx);
                    proof {
                        assert(mempool@.last() == tx@);
                    }
                    return true;
                },
                None => {},
            }
            attempts = attempts + 1;
        }
        false
    }

    /// Signals the search to stop after the current attempt.
    pub fn stop_mining(&mut self)
        ensures
            *final(self) == (Miner { can_i_mine: false, ..*old(self) }),
    {
        self.can_i_mine = false;
    }

    /// One proof-of-work attempt: draws a nonce, hashes it with the
    /// miner's key, and on a hit builds, signs and returns the
    /// golden-ticket reward transaction.  The nonce is random, so only
    /// the shape of each outcome is promised.
    pub fn attempt_solution(
        &mut self,
        previous_block: &Block,
        wallet: &Wallet,
        burnfee: &BurnFee,
    ) -> (r: Option<Transaction>)
        requires
            old(self).difficulty <= 3150,
            old(self).paysplit <= 100,
            spec_block_amounts_bounded(previous_block@),
        ensures
            r is None ==> *final(self) == *old(self),
            r matches Some(tx) ==> {
                &&& *final(self) == (Miner { can_i_mine: false, ..*old(self) })
                &&& spec_golden_ticket_tx(
                    tx@,
                    previous_block@,
                    wallet@.publickey,
                    *burnfee,
                    old(self).paysplit,
                )
                &&& (crypto::is_valid_secret_key(wallet@.privatekey) ==> tx@.sig
                    == crypto::ecdsa_signature_of(
                    crypto::sha256_of(spec_sig_source(tx@)),
                    wallet@.privatekey,
                ))
            },
    {
        let random_number: u32 = crypto::random_u32();
        let mut preimage = wallet.return_publickey();
        bytes::put_u32(&mut preimage, random_number);
        let random_solution = crypto::sha256(&preimage);

        let previous_hash = previous_block.return_block_hash();
        if !self.is_valid_solution(&random_solution, &previous_hash) {
            return None;
        }
        self.can_i_mine = false;

        let _golden_solution = self.calculate_solution(
            wallet.return_publickey(),
            &previous_hash,
            &random_solution,
        );

        let winning_tx_address = self.find_winner(&random_solution, previous_block);

        let paid_burn_fee: u128 = burnfee.return_previous_burnfee();
        let minerkey = wallet.return_publickey();
        let total_fees_for_creator: i128 = previous_block.return_available_fees(
            &previous_block.creator,
        );
        let total_fees_in_block: i128 = previous_block.return_available_fees(&minerkey);

        proof {
            crate::block::lemma_available_fees_amount_bounds(
                previous_block@,
                previous_block@.creator,
            );
            crate::block::lemma_available_fees_amount_bounds(previous_block@, minerkey@);
            assert(paid_burn_fee <= (burnfee.fee as int) * 1000);
        }
        let creator_surplus: i128 = total_fees_for_creator - paid_burn_fee as i128;
        let pool: i128 = (total_fees_in_block - creator_surplus) + previous_block.coinbase
            as i128;

        let pool_neg = pool < 0;
        let mag: u128 = if pool_neg {
            (-pool) as u128
        } else {
            pool as u128
        };
        let ps = self.paysplit;
        proof {
            assert(mag <= 0x80000_0000_0000_0000_0000_0000_0000);
            assert((mag as int) * (ps as int) < 0x1_0000_0000_0000_0000_0000_0000_0000_0000)
                by (nonlinear_arith)
                requires
                    0 <= mag <= 0x80000_0000_0000_0000_0000_0000_0000,
                    0 <= ps <= 100,
            ;
        }
        let share_mag: u128 = (mag * ps as u128) / 100;
        let miner_share: i128 = if pool_neg {
            -(share_mag as i128)
        } else {
            share_mag as i128
        };
        proof {
            let pooli = pool as int;
            let psi = ps as int;
            if pool_neg {
                assert((mag as int) * psi == -(pooli * psi)) by (nonlinear_arith)
                    requires
                        mag == -pooli,
                ;
                assert(pooli * psi <= 0) by (nonlinear_arith)
                    requires
                        pooli < 0,
                        psi >= 0,
                ;
            } else {
                assert((mag as int) * psi == pooli * psi) by (nonlinear_arith)
                    requires
                        mag == pooli,
                ;
                assert(pooli * psi >= 0) by (nonlinear_arith)
                    requires
                        pooli >= 0,
                        psi >= 0,
                ;
            }
            assert(miner_share == spec_miner_share(
                previous_block@,
                minerkey@,
                *burnfee,
                self.paysplit,
            ));
        }
        let node_share: i128 = pool - miner_share;

        let miner_amount: i64 = clamp_share(miner_share);
        let node_amount: i64 = clamp_share(node_share);

        let mut golden_tx: Transaction = match wallet.create_transaction(
            wallet.return_publickey(),
            TransactionType::GoldenTicket,
            0,
            0,
        ) {
            Some(tx) => tx,
            None => wallet.create_empty_golden_ticket(),
        };

        let mut miner_slip = Slip::new(minerkey);
        miner_slip.amount = miner_amount;
        golden_tx.add_to_slip(miner_slip);

        let mut node_slip = Slip::new(winning_tx_address);
        node_slip.amount = node_amount;
        golden_tx.add_to_slip(node_slip);

        let source = golden_tx.return_signature_source();
        golden_tx.sig = wallet.create_signature(&source);

        proof {
            crate::wallet::lemma_cover_at_props(wallet@.inputs, 0, 0);
            let t = golden_tx@;
            assert(t.to[t.to.len() - 2].block_hash =~= Seq::<u8>::empty());
            assert(t.to[t.to.len() - 1].block_hash =~= Seq::<u8>::empty());
            assert(t.tx_type == TransactionType::GoldenTicket);
            assert(t.from.len() >= 1);
            assert(t.to.len() >= 2);
            assert(t.to[t.to.len() - 2] == (SlipV {
                address: wallet@.publickey,
                amount: spec_clamp_i64(
                    spec_miner_share(previous_block@, wallet@.publickey, *burnfee, self.paysplit),
                ),
                block_id: 0,
                transaction_id: 0,
                id: 0,
                block_hash: Seq::<u8>::empty(),
            }));
            assert(t.to[t.to.len() - 1] == (SlipV {
                address: spec_winner(previous_block@),
                amount: spec_clamp_i64(
                    spec_node_share(previous_block@, wallet@.publickey, *burnfee, self.paysplit),
                ),
                block_id: 0,
                transaction_id: 0,
                id: 0,
                block_hash: Seq::<u8>::empty(),
            }));
        }
        Some(golden_tx)
    }

    /// Records the solution that beat the target.
    pub fn calculate_solution(
        &self,
        publickey: Vec<u8>,
        block_hash: &Vec<u8>,
        random: &Vec<u8>,
    ) -> (r: GoldenTicket)
        ensures
            r.target@ == block_hash@,
            r.vote == 1,
            r.random@ == random@,
            r.publickey@ == publickey@,
    {
        GoldenTicket {
            target: bytes::clone_bytes(block_hash),
            vote: 1,
            random: bytes::clone_bytes(random),
            publickey,
        }
    }

    /// Whether the candidate hash matches the previous block's hash on
    /// the first difficulty-rounded bytes.
    fn is_valid_solution(&self, random_solution: &Vec<u8>, prev_blk: &Vec<u8>) -> (r: bool)
        requires
            self.difficulty <= 3150,
            spec_difficulty_bytes(self.difficulty) <= random_solution@.len(),
            spec_difficulty_bytes(self.difficulty) <= prev_blk@.len(),
        ensures
            r == (random_solution@.subrange(0, spec_difficulty_bytes(self.difficulty))
                == prev_blk@.subrange(0, spec_difficulty_bytes(self.difficulty))),
    {
        let difficulty: usize = ((self.difficulty + 50) / 100) as usize;
        let a = bytes::get_slice(random_solution, 0, difficulty);
        let b = bytes::get_slice(prev_blk, 0, difficulty);
        bytes::bytes_eq(&a, &b)
    }

    /// The address the node share goes to, exactly [`spec_winner`].
    fn find_winner(&self, random_solution: &Vec<u8>, previous_block: &Block) -> (r: Vec<u8>)
        ensures
            r@ == spec_winner(previous_block@),
    {
        if previous_block.transactions.len() == 0 {
            return bytes::clone_bytes(&previous_block.creator);
        }
        proof {
            lemma_win_at_props(previous_block@.transactions, 0, -1, 0);
        }
        match self.find_winning_transaction(previous_block) {
            Some(tx) => {
                proof {
                    assert(spec_sum_amounts(tx@.from) > 0);
                    assert(tx@.from.len() >= 1);
                }
                bytes::clone_bytes(&tx.from[0].address)
            },
            None => bytes::clone_bytes(&previous_block.creator),
        }
    }

    /// The first transaction of the previous block whose input sum beats
    /// every earlier one, if any carries positive value.
    fn find_winning_transaction(&self, previous_block: &Block) -> (r: Option<Transaction>)
        ensures
            spec_win_at(previous_block@.transactions, 0, -1, 0).0 == -1 ==> r is None,
            spec_win_at(previous_block@.transactions, 0, -1, 0).0 >= 0 ==> (r matches Some(tx)
                && tx@ == previous_block@.transactions[spec_win_at(
                previous_block@.transactions,
                0,
                -1,
                0,
            ).0]),
    {
        let ghost ts = previous_block@.transactions;
        let n = previous_block.transactions.len();
        let mut found = false;
        let mut best_idx: usize = 0;
        let mut winning_amt: i128 = 0;
        let mut i: usize = 0;
        while i < n
            invariant
                n == previous_block.transactions@.len(),
                ts == previous_block@.transactions,
                i <= n,
                !found ==> winning_amt == 0,
                found ==> best_idx < i && winning_amt == spec_sum_amounts(
                    ts[best_idx as int].from,
                ),
                spec_win_at(ts, 0, -1, 0) == spec_win_at(
                    ts,
                    i as int,
                    if found {
                        best_idx as int
                    } else {
                        -1
                    },
                    winning_amt as int,
                ),
            decreases n - i,
        {
            let tx = &previous_block.transactions[i];
            proof {
                assert(tx@ == ts[i as int]);
            }
            let current_amt = tx.calculate_from_amount();
            if winning_amt < current_amt {
                found = true;
                best_idx = i;
                winning_amt = current_amt;
            }
            i = i + 1;
        }
        if found {
            let tx = previous_block.transactions[best_idx].clone();
            Some(tx)
        } else {
            None
        }
    }
}

/// Saturates a computed share into the slip amount range, exactly
/// [`spec_clamp_i64`].
fn clamp_share(x: i128) -> (r: i64)
    ensures
        r == spec_clamp_i64(x as int),
{
    if x > i64::MAX as i128 {
        i64::MAX
    } else if x < i64::MIN as i128 {
        i64::MIN
    } else {
        x as i64
    }
}

} // verus!

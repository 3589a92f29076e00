//! Blocks: ordered transactions plus linkage and economic metadata, with
//! the block-level consensus checks.

use vstd::prelude::*;
use crate::bytes;
use crate::codec;
use crate::crypto;
use crate::helper;
use crate::slip::SlipV;
use crate::transaction::{
    spec_sig_source_seq, spec_tx_valid, Transaction, TransactionType, TxV, clone_slips,
};

verus! {

/// The maturity window: how many blocks back an unspent output may lie
/// and still be spent with a nonzero amount; also the emission divisor.
pub const GENESIS_PERIOD: u32 = 21600;

/// The treasury a fresh block starts from.
pub const STARTING_TREASURY: u64 = 2_868_100_000;

/// An ordered collection of transactions plus linkage and hash metadata.
///
/// `paysplit` is the miner's share of the reward pool in hundredths;
/// `difficulty` the number of leading hash bytes a mining solution must
/// match.
#[derive(Debug, PartialEq)]
pub struct Block {
    pub id: u32,
    pub previous_hash: Vec<u8>,
    pub merkle_root: Vec<u8>,
    pub timestamp: u128,
    pub creator: Vec<u8>,
    pub transactions: Vec<Transaction>,
    pub difficulty: u32,
    pub paysplit: u32,
    pub treasury: u64,
    pub coinbase: u64,
    pub reclaimed: u64,
}

/// The mathematical image of a [`Block`].
pub ghost struct BlockV {
    pub id: u32,
    pub previous_hash: Seq<u8>,
    pub merkle_root: Seq<u8>,
    pub timestamp: u128,
    pub creator: Seq<u8>,
    pub transactions: Seq<TxV>,
    pub difficulty: u32,
    pub paysplit: u32,
    pub treasury: u64,
    pub coinbase: u64,
    pub reclaimed: u64,
}

impl View for Block {
    type V = BlockV;

    open spec fn view(&self) -> BlockV {
        BlockV {
            id: self.id,
            previous_hash: self.previous_hash@,
            merkle_root: self.merkle_root@,
            timestamp: self.timestamp,
            creator: self.creator@,
            transactions: self.transactions@.map_values(|t: Transaction| t@),
            difficulty: self.difficulty,
            paysplit: self.paysplit,
            treasury: self.treasury,
            coinbase: self.coinbase,
            reclaimed: self.reclaimed,
        }
    }
}

/// The bytes a block's hash covers: id, previous hash, timestamp and
/// creator key, in order.
pub open spec fn spec_block_hash_preimage(b: BlockV) -> Seq<u8> {
    bytes::spec_u32_be(b.id) + b.previous_hash + bytes::spec_u128_be(b.timestamp) + b.creator
}

/// The block hash.
pub open spec fn spec_block_hash(b: BlockV) -> Seq<u8> {
    crypto::sha256_of(spec_block_hash_preimage(b))
}

/// The canonical indices of one transaction's input slips.
pub open spec fn spec_from_indices_of(t: TxV) -> Seq<Seq<u8>> {
    t.from.map_values(|s: SlipV| codec::spec_enc_slip(s))
}

/// The canonical indices of every input slip in the block, in order.
pub open spec fn spec_all_from_indices(ts: Seq<TxV>) -> Seq<Seq<u8>>
    decreases ts.len(),
{
    if ts.len() == 0 {
        Seq::<Seq<u8>>::empty()
    } else {
        spec_all_from_indices(ts.drop_last()) + spec_from_indices_of(ts.last())
    }
}

/// No element occurs twice.
pub open spec fn spec_distinct(s: Seq<Seq<u8>>) -> bool {
    forall|i: int, j: int| 0 <= i < j < s.len() ==> s[i] != s[j]
}

/// The maturity rule: a base-kind transaction may not spend a nonzero
/// amount from a slip confirmed more than [`GENESIS_PERIOD`] blocks ago.
pub open spec fn spec_maturity_ok(b: BlockV) -> bool {
    forall|i: int, j: int|
        0 <= i < b.transactions.len() && 0 <= j < b.transactions[i].from.len() ==> !(
        b.transactions[i].tx_type == TransactionType::Base && (b.transactions[i].from[j].block_id
            as int) < b.id - GENESIS_PERIOD && b.transactions[i].from[j].amount > 0)
}

/// Base and golden-ticket transactions must pass the transaction-level
/// check; other kinds are exempt.
pub open spec fn spec_txs_valid(ts: Seq<TxV>) -> bool {
    forall|i: int|
        0 <= i < ts.len() && (ts[i].tx_type == TransactionType::Base || ts[i].tx_type
            == TransactionType::GoldenTicket) ==> spec_tx_valid(ts[i])
}

/// The block-level consensus predicate against the previous block:
/// strictly increasing timestamp, no input slip spent twice, the maturity
/// window respected, valid transactions, and a merkle root that matches
/// the transactions.
pub open spec fn spec_block_valid(b: BlockV, prev: BlockV) -> bool {
    &&& prev.timestamp < b.timestamp
    &&& spec_distinct(spec_all_from_indices(b.transactions))
    &&& spec_maturity_ok(b)
    &&& spec_txs_valid(b.transactions)
    &&& b.merkle_root == crypto::merkle_root_of(spec_sig_source_seq(b.transactions))
}

/// Copies a transaction vector; the views agree element for element.
pub fn clone_transactions(v: &Vec<Transaction>) -> (r: Vec<Transaction>)
    ensures
        r@.map_values(|t: Transaction| t@) == v@.map_values(|t: Transaction| t@),
{
    let mut r: Vec<Transaction> = Vec::new();
    let n = v.len();
    let mut i: usize = 0;
    while i < n
        invariant
            n == v@.len(),
            i <= n,
            r@.len() == i,
            forall|j: int| 0 <= j < i ==> r@[j]@ == v@[j]@,
        decreases n - i,
    {
        let c = v[i].clone();
        r.push(c);
        i = i + 1;
    }
    assert(r@.map_values(|t: Transaction| t@) =~= v@.map_values(|t: Transaction| t@));
    r
}

impl Clone for Block {
    /// A clone carries exactly the same field values.
    fn clone(&self) -> (r: Self)
        ensures
            r@ == self@,
    {
        Block {
            id: self.id,
            previous_hash: bytes::clone_bytes(&self.previous_hash),
            merkle_root: bytes::clone_bytes(&self.merkle_root),
            timestamp: self.timestamp,
            creator: bytes::clone_bytes(&self.creator),
            transactions: clone_transactions(&self.transactions),
            difficulty: self.difficulty,
            paysplit: self.paysplit,
            treasury: self.treasury,
            coinbase: self.coinbase,
            reclaimed: self.reclaimed,
        }
    }
}

impl Block {
    /// An empty block referencing `previous_hash`, created by `publickey`,
    /// with the default economic parameters and the current time.
    pub fn new(previous_hash: Vec<u8>, publickey: Vec<u8>) -> (r: Block)
        ensures
            r@.id == 1,
            r@.previous_hash == previous_hash@,
            r@.merkle_root == Seq::<u8>::empty(),
            r@.creator == publickey@,
            r@.transactions == Seq::<TxV>::empty(),
            r@.difficulty == 0,
            r@.paysplit == 50,
            r@.treasury == STARTING_TREASURY,
            r@.coinbase == 0,
            r@.reclaimed == 0,
    {
        let r = Block {
            id: 1,
            timestamp: helper::time_since_unix_epoch(),
            previous_hash,
            merkle_root: Vec::new(),
            creator: publickey,
            transactions: Vec::new(),
            difficulty: 0,
            paysplit: 50,
            treasury: STARTING_TREASURY,
            coinbase: 0,
            reclaimed: 0,
        };
        assert(r@.merkle_root =~= Seq::<u8>::empty());
        assert(r@.transactions =~= Seq::<TxV>::empty());
        r
    }

    /// The block hash: SHA-256 over id, previous hash, timestamp and
    /// creator, recomputed on demand.
    pub fn return_block_hash(&self) -> (r: Vec<u8>)
        ensures
            r@ == spec_block_hash(self@),
            r@.len() == 32,
    {
        let mut preimage: Vec<u8> = Vec::new();
        bytes::put_u32(&mut preimage, self.id);
        bytes::put_bytes(&mut preimage, &self.previous_hash);
        bytes::put_u128(&mut preimage, self.timestamp);
        bytes::put_bytes(&mut preimage, &self.creator);
        assert(preimage@ =~= spec_block_hash_preimage(self@));
        crypto::sha256(&preimage)
    }

    /// The block's sequence number.
    pub fn return_id(&self) -> (r: u32)
        ensures
            r == self@.id,
    {
        self.id
    }

    /// The block's creation time.
    pub fn return_timestamp(&self) -> (r: u128)
        ensures
            r == self@.timestamp,
    {
        self.timestamp
    }

    /// A copy of the block's transactions.
    pub fn return_transactions(&self) -> (r: Vec<Transaction>)
        ensures
            r@.map_values(|t: Transaction| t@) == self@.transactions,
    {
        clone_transactions(&self.transactions)
    }

    /// Recomputes the merkle root from the current transactions.
    pub fn set_merkle_root(&mut self)
        ensures
            final(self)@ == (BlockV {
                merkle_root: crypto::merkle_root_of(spec_sig_source_seq(old(self)@.transactions)),
                ..old(self)@
            }),
    {
        let txs = clone_transactions(&self.transactions);
        self.merkle_root = helper::create_merkle_root(txs);
    }

    /// The number of input and output slips across all transactions.
    pub fn return_slip_len(&self) -> (r: u32)
        requires
            spec_total_slips(self@.transactions) <= u32::MAX,
        ensures
            r == spec_total_slips(self@.transactions),
    {
        let ghost ts = self@.transactions;
        let mut slip_number: u32 = 0;
        let n = self.transactions.len();
        let mut i: usize = 0;
        while i < n
            invariant
                n == self.transactions@.len(),
                ts == self@.transactions,
                i <= n,
                slip_number == spec_total_slips(ts.take(i as int)),
                spec_total_slips(ts) <= u32::MAX,
            decreases n - i,
        {
            proof {
                assert(ts.take(i + 1).drop_last() =~= ts.take(i as int));
                assert(ts.take(i + 1).last() == ts[i as int]);
                lemma_total_slips_prefix(ts, i + 1);
                lemma_slip_counts_nonneg(ts.take(i as int));
            }
            let tx = &self.transactions[i];
            proof {
                assert(tx@ == ts[i as int]);
                assert(tx.to@.len() == ts[i as int].to.len());
                assert(tx.from@.len() == ts[i as int].from.len());
            }
            let nt = tx.to.len();
            let nf = tx.from.len();
            slip_number = slip_number + nt as u32;
            slip_number = slip_number + nf as u32;
            i = i + 1;
        }
        assert(ts.take(n as int) =~= ts);
        slip_number
    }

    /// The number of transactions in the block.
    pub fn return_tx_len(&self) -> (r: u32)
        requires
            self@.transactions.len() <= u32::MAX,
        ensures
            r == self@.transactions.len(),
    {
        self.transactions.len() as u32
    }

    /// Sums each transaction's usable fees for `key`.
    pub fn return_available_fees(&self, key: &Vec<u8>) -> (r: i128)
        requires
            spec_block_fees_bounded(self@),
        ensures
            r == spec_available_fees(self@.transactions, key@),
    {
        let ghost ts = self@.transactions;
        let mut total: i128 = 0;
        let n = self.transactions.len();
        let mut i: usize = 0;
        while i < n
            invariant
                n == self.transactions@.len(),
                ts == self@.transactions,
                i <= n,
                total == spec_available_fees(ts.take(i as int), key@),
                spec_block_fees_bounded(self@),
            decreases n - i,
        {
            proof {
                assert(ts.take(i + 1).drop_last() =~= ts.take(i as int));
                assert(ts.take(i + 1).last() == ts[i as int]);
                lemma_available_fees_bounds(ts.take(i + 1), key@);
                lemma_available_fees_bounds(ts.take(i as int), key@);
                assert(self.transactions@[i as int]@ == ts[i as int]);
            }
            let f = self.transactions[i].return_fees_usable(key);
            total = total + f;
            i = i + 1;
        }
        assert(ts.take(n as int) =~= ts);
        total
    }

    /// After the block hash is final, stamps every output slip with this
    /// block's hash and id and its owning transaction's id.
    pub fn update_slips(&mut self)
        ensures
            final(self)@ == (BlockV {
                transactions: spec_update_slips(
                    old(self)@.transactions,
                    spec_block_hash(old(self)@),
                    old(self)@.id,
                ),
                ..old(self)@
            }),
    {
        let block_hash = self.return_block_hash();
        let block_id = self.id;
        let ghost ts = self@.transactions;
        let n = self.transactions.len();
        let mut updated: Vec<Transaction> = Vec::new();
        let mut i: usize = 0;
        while i < n
            invariant
                n == self.transactions@.len(),
                ts == self@.transactions,
                block_hash@ == spec_block_hash(self@),
                block_id == self@.id,
                i <= n,
                updated@.len() == i,
                forall|j: int|
                    0 <= j < i ==> updated@[j]@ == spec_update_tx(ts[j], block_hash@, block_id),
            decreases n - i,
        {
            let tx = &self.transactions[i];
            proof {
                assert(tx@ == ts[i as int]);
            }
            let tid = tx.id;
            let mut to2: Vec<crate::slip::Slip> = Vec::new();
            let nt = tx.to.len();
            let mut j: usize = 0;
            while j < nt
                invariant
                    nt == tx.to@.len(),
                    j <= nt,
                    to2@.len() == j,
                    tid == tx@.id,
                    forall|k: int|
                        0 <= k < j ==> to2@[k]@ == (SlipV {
                            block_hash: block_hash@,
                            block_id: block_id,
                            transaction_id: tid,
                            ..tx@.to[k]
                        }),
                decreases nt - j,
            {
                let mut s = tx.to[j].clone();
                s.block_hash = bytes::clone_bytes(&block_hash);
                s.block_id = block_id;
                s.transaction_id = tid;
                to2.push(s);
                j = j + 1;
            }
            let t2 = Transaction {
                id: tx.id,
                tx_type: tx.tx_type,
                timestamp: tx.timestamp,
                sig: bytes::clone_bytes(&tx.sig),
                to: to2,
                from: clone_slips(&tx.from),
                msg: bytes::clone_bytes(&tx.msg),
            };
            proof {
                assert(t2@.to =~= spec_update_tx(ts[i as int], block_hash@, block_id).to);
                assert(t2@.from =~= ts[i as int].from);
                assert(t2@ == spec_update_tx(ts[i as int], block_hash@, block_id));
            }
            updated.push(t2);
            i = i + 1;
        }
        self.transactions = updated;
        assert(self@.transactions =~= spec_update_slips(ts, spec_block_hash(old(self)@),
        old(self)@.id));
    }

    /// The block-level consensus check against the previous block,
    /// exactly [`spec_block_valid`].
    pub fn validate(&self, previous_block: &Block) -> (r: bool)
        ensures
            r == spec_block_valid(self@, previous_block@),
    {
        if previous_block.timestamp >= self.timestamp {
            return false;
        }
        let indices = collect_from_indices(&self.transactions);
        if !seqs_all_distinct(&indices) {
            return false;
        }
        if !self.maturity_ok() {
            return false;
        }
        let n = self.transactions.len();
        let ghost ts = self@.transactions;
        let mut i: usize = 0;
        while i < n
            invariant
                n == self.transactions@.len(),
                ts == self@.transactions,
                i <= n,
                forall|j: int|
                    0 <= j < i && (ts[j].tx_type == TransactionType::Base || ts[j].tx_type
                        == TransactionType::GoldenTicket) ==> spec_tx_valid(ts[j]),
            decreases n - i,
        {
            let tx = &self.transactions[i];
            proof {
                assert(tx@ == ts[i as int]);
            }
            match tx.tx_type {
                TransactionType::Base => {
                    if !tx.validate() {
                        return false;
                    }
                },
                TransactionType::GoldenTicket => {
                    if !tx.validate() {
                        return false;
                    }
                },
                _ => {},
            }
            i = i + 1;
        }
        let computed = helper::create_merkle_root(clone_transactions(&self.transactions));
        if !bytes::bytes_eq(&self.merkle_root, &computed) {
            return false;
        }
        true
    }

    /// The maturity rule alone, exactly [`spec_maturity_ok`].
    fn maturity_ok(&self) -> (r: bool)
        ensures
            r == spec_maturity_ok(self@),
    {
        let ghost ts = self@.transactions;
        let n = self.transactions.len();
        let lower_block_limit: i64 = self.id as i64 - GENESIS_PERIOD as i64;
        let mut i: usize = 0;
        while i < n
            invariant
                n == self.transactions@.len(),
                ts == self@.transactions,
                lower_block_limit == self@.id - GENESIS_PERIOD,
                i <= n,
                forall|a: int, j: int|
                    0 <= a < i && 0 <= j < ts[a].from.len() ==> !(ts[a].tx_type
                        == TransactionType::Base && (ts[a].from[j].block_id as int) < self@.id
                        - GENESIS_PERIOD && ts[a].from[j].amount > 0),
            decreases n - i,
        {
            let tx = &self.transactions[i];
            proof {
                assert(tx@ == ts[i as int]);
            }
            let is_base = match tx.tx_type {
                TransactionType::Base => true,
                _ => false,
            };
            let nf = tx.from.len();
            let mut j: usize = 0;
            while j < nf
                invariant
                    nf == tx.from@.len(),
                    tx@ == ts[i as int],
                    i < n,
                    n == self.transactions@.len(),
                    ts == self@.transactions,
                    lower_block_limit == self@.id - GENESIS_PERIOD,
                    is_base == (ts[i as int].tx_type == TransactionType::Base),
                    j <= nf,
                    forall|k: int|
                        0 <= k < j ==> !(ts[i as int].tx_type == TransactionType::Base && (ts[
                            i as int].from[k].block_id as int) < self@.id - GENESIS_PERIOD && ts[
                            i as int].from[k].amount > 0),
                decreases nf - j,
            {
                let slip = &tx.from[j];
                proof {
                    assert(slip@ == ts[i as int].from[j as int]);
                }
                if is_base && (slip.block_id as i64) < lower_block_limit && slip.amount > 0 {
                    assert(!spec_maturity_ok(self@));
                    return false;
                }
                j = j + 1;
            }
            i = i + 1;
        }
        true
    }
}

/// One transaction re-stamped during bundling: the transaction and its
/// input slips take the running transaction id `tid`, every slip takes
/// the next sequential id starting at `sid0`, and input slips are bound
/// to the bundling block.
pub open spec fn spec_bundle_tx(t: TxV, bid: u32, tid: int, sid0: int) -> TxV {
    TxV {
        id: tid as u32,
        from: Seq::new(
            t.from.len(),
            |j: int|
                SlipV {
                    id: (sid0 + j) as u32,
                    block_id: bid,
                    transaction_id: tid as u32,
                    ..t.from[j]
                },
        ),
        to: Seq::new(
            t.to.len(),
            |j: int| SlipV { id: (sid0 + t.from.len() + j) as u32, ..t.to[j] },
        ),
        ..t
    }
}

/// The number of slips one transaction carries.
pub open spec fn spec_slip_count(t: TxV) -> int {
    t.from.len() + t.to.len() as int
}

/// The transactions re-stamped in order, with the running counters
/// threaded through.
pub open spec fn spec_bundle_txs(ts: Seq<TxV>, bid: u32, tid0: int, sid0: int) -> Seq<TxV>
    decreases ts.len(),
{
    if ts.len() == 0 {
        Seq::<TxV>::empty()
    } else {
        seq![spec_bundle_tx(ts.first(), bid, tid0, sid0)] + spec_bundle_txs(
            ts.drop_first(),
            bid,
            tid0 + 1,
            sid0 + spec_slip_count(ts.first()),
        )
    }
}

/// A nonempty prefix counts the first transaction's slips plus the rest.
pub proof fn lemma_total_slips_front(ts: Seq<TxV>, k: int)
    requires
        1 <= k <= ts.len(),
    ensures
        spec_total_slips(ts.take(k)) == spec_slip_count(ts[0]) + spec_total_slips(
            ts.drop_first().take(k - 1),
        ),
    decreases k,
{
    if k == 1 {
        assert(ts.take(1).drop_last() =~= Seq::<TxV>::empty());
        assert(ts.take(1).last() == ts[0]);
        assert(ts.drop_first().take(0) =~= Seq::<TxV>::empty());
    } else {
        lemma_total_slips_front(ts, k - 1);
        assert(ts.take(k).drop_last() =~= ts.take(k - 1));
        assert(ts.take(k).last() == ts[k - 1]);
        assert(ts.drop_first().take(k - 1).drop_last() =~= ts.drop_first().take(k - 2));
        assert(ts.drop_first().take(k - 1).last() == ts[k - 1]);
    }
}

/// Extending a bundled prefix by one transaction appends its bundled
/// image, with the counters advanced by everything before it.
pub proof fn lemma_bundle_txs_snoc(ts: Seq<TxV>, bid: u32, tid0: int, sid0: int, k: int)
    requires
        0 <= k < ts.len(),
    ensures
        spec_bundle_txs(ts.take(k + 1), bid, tid0, sid0) =~= spec_bundle_txs(
            ts.take(k),
            bid,
            tid0,
            sid0,
        ).push(spec_bundle_tx(ts[k], bid, tid0 + k, sid0 + spec_total_slips(ts.take(k)))),
    decreases k,
{
    if k == 0 {
        assert(ts.take(0) =~= Seq::<TxV>::empty());
        assert(ts.take(1).first() == ts[0]);
        assert(ts.take(1).drop_first() =~= Seq::<TxV>::empty());
        assert(spec_bundle_txs(
            Seq::<TxV>::empty(),
            bid,
            tid0 + 1,
            sid0 + spec_slip_count(ts[0]),
        ) =~= Seq::<TxV>::empty());
        assert(spec_bundle_txs(ts.take(1), bid, tid0, sid0) =~= seq![
            spec_bundle_tx(ts[0], bid, tid0, sid0),
        ]);
    } else {
        let tail = ts.drop_first();
        let count0 = spec_slip_count(ts[0]);
        lemma_bundle_txs_snoc(tail, bid, tid0 + 1, sid0 + count0, k - 1);
        lemma_total_slips_front(ts, k);
        assert(ts.take(k + 1).first() == ts[0]);
        assert(ts.take(k + 1).drop_first() =~= tail.take(k));
        assert(ts.take(k).first() == ts[0]);
        assert(ts.take(k).drop_first() =~= tail.take(k - 1));
        assert(tail[k - 1] == ts[k]);
        assert(spec_bundle_txs(ts.take(k + 1), bid, tid0, sid0) =~= seq![
            spec_bundle_tx(ts[0], bid, tid0, sid0),
        ] + spec_bundle_txs(tail.take(k), bid, tid0 + 1, sid0 + count0));
        assert(spec_bundle_txs(ts.take(k), bid, tid0, sid0) =~= seq![
            spec_bundle_tx(ts[0], bid, tid0, sid0),
        ] + spec_bundle_txs(tail.take(k - 1), bid, tid0 + 1, sid0 + count0));
    }
}

/// Re-stamps one transaction with the bundling block's id and the
/// running counters, exactly [`spec_bundle_tx`].
fn bundle_one_tx(tx: &Transaction, bid: u32, tid: u32, sid_start: u32) -> (r: Transaction)
    requires
        sid_start + tx@.from.len() + tx@.to.len() <= u32::MAX,
    ensures
        r@ == spec_bundle_tx(tx@, bid, tid as int, sid_start as int),
{
    let mut from2: Vec<crate::slip::Slip> = Vec::new();
    let nf = tx.from.len();
    let mut j: usize = 0;
    while j < nf
        invariant
            nf == tx.from@.len(),
            sid_start + tx@.from.len() + tx@.to.len() <= u32::MAX,
            j <= nf,
            from2@.len() == j,
            forall|k: int|
                0 <= k < j ==> from2@[k]@ == (SlipV {
                    id: (sid_start + k) as u32,
                    block_id: bid,
                    transaction_id: tid,
                    ..tx@.from[k]
                }),
        decreases nf - j,
    {
        let mut s = tx.from[j].clone();
        proof {
            assert(tx.from@[j as int]@ == tx@.from[j as int]);
        }
        s.id = sid_start + j as u32;
        s.block_id = bid;
        s.transaction_id = tid;
        from2.push(s);
        j = j + 1;
    }
    let mut to2: Vec<crate::slip::Slip> = Vec::new();
    let nt = tx.to.len();
    let base = sid_start + nf as u32;
    let mut k: usize = 0;
    while k < nt
        invariant
            nt == tx.to@.len(),
            base == sid_start + tx@.from.len(),
            base + tx@.to.len() <= u32::MAX,
            k <= nt,
            to2@.len() == k,
            forall|m: int|
                0 <= m < k ==> to2@[m]@ == (SlipV { id: (base + m) as u32, ..tx@.to[m] }),
        decreases nt - k,
    {
        let mut s = tx.to[k].clone();
        proof {
            assert(tx.to@[k as int]@ == tx@.to[k as int]);
        }
        s.id = base + k as u32;
        to2.push(s);
        k = k + 1;
    }
    let r = Transaction {
        id: tid,
        tx_type: tx.tx_type,
        timestamp: tx.timestamp,
        sig: bytes::clone_bytes(&tx.sig),
        to: to2,
        from: from2,
        msg: bytes::clone_bytes(&tx.msg),
    };
    proof {
        assert(r@.from =~= spec_bundle_tx(tx@, bid, tid as int, sid_start as int).from);
        assert(r@.to =~= spec_bundle_tx(tx@, bid, tid as int, sid_start as int).to);
        assert(r@ == spec_bundle_tx(tx@, bid, tid as int, sid_start as int));
    }
    r
}

impl Block {
    /// Chains this block onto the previous one: next id, carried-forward
    /// paysplit and difficulty, the previous block's hash, and the
    /// emission drawn from treasury plus reclaimed funds.
    fn bundle_with_previous_block(&mut self, previous_block: &Block)
        requires
            previous_block@.id < u32::MAX,
            previous_block@.treasury + previous_block@.reclaimed <= u64::MAX,
        ensures
            final(self)@ == spec_bundled_base(old(self)@, previous_block@),
    {
        self.id = previous_block.id + 1;
        let t: u64 = previous_block.treasury + previous_block.reclaimed;
        let c: u64 = t / (GENESIS_PERIOD as u64);
        proof {
            vstd::arithmetic::div_mod::lemma_div_nonincreasing(t as int, GENESIS_PERIOD as int);
        }
        self.coinbase = c;
        self.treasury = t - c;
        self.previous_hash = previous_block.return_block_hash();
        self.paysplit = previous_block.paysplit;
        self.difficulty = previous_block.difficulty;
    }

    /// Assigns the running transaction and slip ids and copies the
    /// transactions into the block, in order.
    fn bundle_transactions(
        &mut self,
        transactions: Vec<Transaction>,
        last_tx_id: u32,
        last_slip_id: u32,
    )
        requires
            last_tx_id + transactions@.len() <= u32::MAX,
            last_slip_id + spec_total_slips(transactions@.map_values(|t: Transaction| t@))
                <= u32::MAX,
        ensures
            final(self)@ == (BlockV {
                transactions: old(self)@.transactions + spec_bundle_txs(
                    transactions@.map_values(|t: Transaction| t@),
                    old(self)@.id,
                    last_tx_id as int,
                    last_slip_id as int,
                ),
                ..old(self)@
            }),
    {
        let ghost ts = transactions@.map_values(|t: Transaction| t@);
        let ghost base = old(self)@.transactions;
        let bid = self.id;
        let n = transactions.len();
        let mut sid: u32 = last_slip_id;
        let mut k: usize = 0;
        proof {
            assert(ts.take(0) =~= Seq::<TxV>::empty());
            assert(self@.transactions =~= base + spec_bundle_txs(
                ts.take(0),
                bid,
                last_tx_id as int,
                last_slip_id as int,
            ));
        }
        while k < n
            invariant
                n == transactions@.len(),
                ts == transactions@.map_values(|t: Transaction| t@),
                bid == self@.id,
                k <= n,
                last_tx_id + n <= u32::MAX,
                last_slip_id + spec_total_slips(ts) <= u32::MAX,
                sid == last_slip_id + spec_total_slips(ts.take(k as int)),
                self@.transactions == base + spec_bundle_txs(
                    ts.take(k as int),
                    bid,
                    last_tx_id as int,
                    last_slip_id as int,
                ),
                self@ == (BlockV { transactions: self@.transactions, ..old(self)@ }),
            decreases n - k,
        {
            proof {
                lemma_slip_counts_nonneg(ts.take(k as int));
                lemma_total_slips_prefix(ts, k + 1);
                lemma_slip_counts_nonneg(ts.take(k + 1));
                assert(ts.take(k + 1).drop_last() =~= ts.take(k as int));
                assert(ts.take(k + 1).last() == ts[k as int]);
                assert(transactions@[k as int]@ == ts[k as int]);
            }
            let tid: u32 = last_tx_id + k as u32;
            let tx = &transactions[k];
            let b = bundle_one_tx(tx, bid, tid, sid);
            let ghost told = self.transactions@;
            self.transactions.push(b);
            let nf = tx.from.len();
            let nt = tx.to.len();
            sid = sid + nf as u32 + nt as u32;
            proof {
                told.lemma_push_map_commute(
                    |t: Transaction| t@,
                    b,
                );
                lemma_bundle_txs_snoc(ts, bid, last_tx_id as int, last_slip_id as int, k as int);
                assert(self.transactions@.map_values(|t: Transaction| t@) =~= base
                    + spec_bundle_txs(
                    ts.take(k + 1),
                    bid,
                    last_tx_id as int,
                    last_slip_id as int,
                ));
            }
            k = k + 1;
        }
        proof {
            assert(ts.take(n as int) =~= ts);
        }
    }

    /// Populates the block from the chain tip (if any) and the pending
    /// transactions: chaining and emission first, then id assignment.
    pub fn bundle(
        &mut self,
        blocks: &Vec<Block>,
        transactions: Vec<Transaction>,
        last_tx_id: u32,
        last_slip_id: u32,
    )
        requires
            blocks@.len() > 0 ==> blocks@.last()@.id < u32::MAX && blocks@.last()@.treasury
                + blocks@.last()@.reclaimed <= u64::MAX,
            last_tx_id + transactions@.len() <= u32::MAX,
            last_slip_id + spec_total_slips(transactions@.map_values(|t: Transaction| t@))
                <= u32::MAX,
        ensures
            blocks@.len() == 0 ==> final(self)@ == (BlockV {
                transactions: old(self)@.transactions + spec_bundle_txs(
                    transactions@.map_values(|t: Transaction| t@),
                    old(self)@.id,
                    last_tx_id as int,
                    last_slip_id as int,
                ),
                ..old(self)@
            }),
            blocks@.len() > 0 ==> final(self)@ == (BlockV {
                transactions: spec_bundled_base(old(self)@, blocks@.last()@).transactions
                    + spec_bundle_txs(
                    transactions@.map_values(|t: Transaction| t@),
                    spec_bundled_base(old(self)@, blocks@.last()@).id,
                    last_tx_id as int,
                    last_slip_id as int,
                ),
                ..spec_bundled_base(old(self)@, blocks@.last()@)
            }),
    {
        if blocks.len() > 0 {
            let previous_block = &blocks[blocks.len() - 1];
            proof {
                assert(blocks@[blocks@.len() - 1] == blocks@.last());
            }
            self.bundle_with_previous_block(previous_block);
            self.bundle_transactions(transactions, last_tx_id, last_slip_id);
        } else {
            self.bundle_transactions(transactions, last_tx_id, last_slip_id);
        }
    }
}

/// The chained linkage and emission a block takes from the previous
/// block: the next id, the previous block's hash, carried-forward
/// paysplit and difficulty, and a coinbase of one genesis-period share of
/// treasury plus reclaimed funds.
pub open spec fn spec_bundled_base(b: BlockV, prev: BlockV) -> BlockV {
    let t = (prev.treasury + prev.reclaimed) as u64;
    let c = (t / (GENESIS_PERIOD as u64)) as u64;
    BlockV {
        id: (prev.id + 1) as u32,
        treasury: (t - c) as u64,
        coinbase: c,
        previous_hash: spec_block_hash(prev),
        paysplit: prev.paysplit,
        difficulty: prev.difficulty,
        ..b
    }
}

/// The number of slips (inputs and outputs) across the transactions.
pub open spec fn spec_total_slips(ts: Seq<TxV>) -> int
    decreases ts.len(),
{
    if ts.len() == 0 {
        0
    } else {
        spec_total_slips(ts.drop_last()) + ts.last().to.len() + ts.last().from.len()
    }
}

/// Slip counts are nonnegative.
pub proof fn lemma_slip_counts_nonneg(ts: Seq<TxV>)
    ensures
        spec_total_slips(ts) >= 0,
    decreases ts.len(),
{
    if ts.len() > 0 {
        lemma_slip_counts_nonneg(ts.drop_last());
    }
}

/// A prefix never counts more slips than the whole.
pub proof fn lemma_total_slips_prefix(ts: Seq<TxV>, k: int)
    requires
        0 <= k <= ts.len(),
    ensures
        spec_total_slips(ts.take(k)) <= spec_total_slips(ts),
    decreases ts.len() - k,
{
    if k == ts.len() {
        assert(ts.take(k) =~= ts);
    } else {
        lemma_total_slips_prefix(ts, k + 1);
        assert(ts.take(k + 1).drop_last() =~= ts.take(k));
        assert(ts.take(k + 1).last() == ts[k]);
    }
}

/// Every transaction keeps its slip lists small enough that fee sums fit
/// comfortably in an `i128`.
pub open spec fn spec_block_fees_bounded(b: BlockV) -> bool {
    &&& b.transactions.len() <= 0x1_0000_0000
    &&& forall|i: int|
        0 <= i < b.transactions.len() ==> #[trigger] b.transactions[i].from.len()
            + b.transactions[i].to.len() <= 0x4000_0000
}

/// The sum over the transactions of the fees usable by `key`.
pub open spec fn spec_available_fees(ts: Seq<TxV>, key: Seq<u8>) -> int
    decreases ts.len(),
{
    if ts.len() == 0 {
        0
    } else {
        spec_available_fees(ts.drop_last(), key) + (crate::transaction::spec_sum_owned(
            ts.last().from,
            key,
        ) - crate::transaction::spec_sum_owned(ts.last().to, key))
    }
}

/// Fee sums are bounded by the number of transactions when each keeps
/// its slip lists small.
pub proof fn lemma_available_fees_bounds(ts: Seq<TxV>, key: Seq<u8>)
    requires
        forall|i: int|
            0 <= i < ts.len() ==> #[trigger] ts[i].from.len() + ts[i].to.len() <= 0x4000_0000,
    ensures
        -(ts.len() as int) * 0x2000_0000_0000_0000_0000_0000 <= spec_available_fees(ts, key),
        spec_available_fees(ts, key) <= (ts.len() as int) * 0x2000_0000_0000_0000_0000_0000,
    decreases ts.len(),
{
    if ts.len() == 0 {
    } else {
        assert(forall|i: int|
            0 <= i < ts.drop_last().len() ==> #[trigger] ts.drop_last()[i].from.len()
                + ts.drop_last()[i].to.len() <= 0x4000_0000);
        lemma_available_fees_bounds(ts.drop_last(), key);
        let t = ts.last();
        assert(t.from.len() + t.to.len() <= 0x4000_0000);
        crate::transaction::lemma_sum_owned_bounds(t.from, key);
        crate::transaction::lemma_sum_owned_bounds(t.to, key);
        let n = ts.len() as int;
        let fees = crate::transaction::spec_sum_owned(t.from, key)
            - crate::transaction::spec_sum_owned(t.to, key);
        assert(-0x2000_0000_0000_0000_0000_0000 <= fees <= 0x2000_0000_0000_0000_0000_0000) by {
            assert((t.from.len() as int) * 0x8000_0000_0000_0000 <= 0x4000_0000
                * 0x8000_0000_0000_0000) by (nonlinear_arith)
                requires
                    0 <= t.from.len() <= 0x4000_0000,
            ;
            assert((t.to.len() as int) * 0x8000_0000_0000_0000 <= 0x4000_0000
                * 0x8000_0000_0000_0000) by (nonlinear_arith)
                requires
                    0 <= t.to.len() <= 0x4000_0000,
            ;
            assert((t.from.len() as int) * 0x7fff_ffff_ffff_ffff <= 0x4000_0000
                * 0x8000_0000_0000_0000) by (nonlinear_arith)
                requires
                    0 <= t.from.len() <= 0x4000_0000,
            ;
            assert((t.to.len() as int) * 0x7fff_ffff_ffff_ffff <= 0x4000_0000
                * 0x8000_0000_0000_0000) by (nonlinear_arith)
                requires
                    0 <= t.to.len() <= 0x4000_0000,
            ;
        }
        assert((n - 1) * 0x2000_0000_0000_0000_0000_0000 + 0x2000_0000_0000_0000_0000_0000 == n
            * 0x2000_0000_0000_0000_0000_0000) by (nonlinear_arith);
    }
}

/// A block whose timestamp does not exceed the tip's is never valid,
/// whatever its other fields hold.
pub proof fn lemma_stale_timestamp_rejected(b: BlockV, prev: BlockV)
    requires
        b.timestamp <= prev.timestamp,
    ensures
        !spec_block_valid(b, prev),
{
}

/// Where a flattened input-slip index lands and what it holds.
pub proof fn lemma_flat_from_index(ts: Seq<TxV>, i: int, j: int)
    requires
        0 <= i < ts.len(),
        0 <= j < ts[i].from.len(),
    ensures
        0 <= spec_all_from_indices(ts.take(i)).len() + j < spec_all_from_indices(ts).len(),
        spec_all_from_indices(ts)[spec_all_from_indices(ts.take(i)).len() + j]
            == codec::spec_enc_slip(ts[i].from[j]),
    decreases ts.len(),
{
    if i == ts.len() - 1 {
        assert(ts.take(i) =~= ts.drop_last());
        assert(spec_from_indices_of(ts.last())[j] == codec::spec_enc_slip(ts[i].from[j]));
    } else {
        lemma_flat_from_index(ts.drop_last(), i, j);
        assert(ts.drop_last().take(i) =~= ts.take(i));
        assert(ts.drop_last()[i] == ts[i]);
    }
}

/// Longer prefixes flatten to at least as many input-slip indices.
pub proof fn lemma_all_from_len_monotone(ts: Seq<TxV>, k1: int, k2: int)
    requires
        0 <= k1 <= k2 <= ts.len(),
    ensures
        spec_all_from_indices(ts.take(k1)).len() <= spec_all_from_indices(ts.take(k2)).len(),
    decreases k2 - k1,
{
    if k1 < k2 {
        lemma_all_from_len_monotone(ts, k1, k2 - 1);
        assert(ts.take(k2).drop_last() =~= ts.take(k2 - 1));
    }
}

/// A block in which two input-slip positions reference the same slip
/// index is never valid: the double spend fails the distinctness check.
pub proof fn lemma_double_spend_rejected(
    b: BlockV,
    prev: BlockV,
    i1: int,
    j1: int,
    i2: int,
    j2: int,
)
    requires
        0 <= i1 < b.transactions.len(),
        0 <= j1 < b.transactions[i1].from.len(),
        0 <= i2 < b.transactions.len(),
        0 <= j2 < b.transactions[i2].from.len(),
        i1 != i2 || j1 != j2,
        codec::spec_enc_slip(b.transactions[i1].from[j1]) == codec::spec_enc_slip(
            b.transactions[i2].from[j2],
        ),
    ensures
        !spec_block_valid(b, prev),
{
    let ts = b.transactions;
    lemma_flat_from_index(ts, i1, j1);
    lemma_flat_from_index(ts, i2, j2);
    let f1 = spec_all_from_indices(ts.take(i1)).len() + j1;
    let f2 = spec_all_from_indices(ts.take(i2)).len() + j2;
    if i1 < i2 {
        assert(ts.take(i1 + 1).drop_last() =~= ts.take(i1));
        assert(ts.take(i1 + 1).last() == ts[i1]);
        lemma_all_from_len_monotone(ts, i1 + 1, i2);
        assert(f1 < f2);
    }
    if i2 < i1 {
        assert(ts.take(i2 + 1).drop_last() =~= ts.take(i2));
        assert(ts.take(i2 + 1).last() == ts[i2]);
        lemma_all_from_len_monotone(ts, i2 + 1, i1);
        assert(f2 < f1);
    }
    assert(f1 != f2);
    assert(!spec_distinct(spec_all_from_indices(ts)));
}

/// A base-kind transaction that spends a positive amount from a slip
/// confirmed more than a genesis period before the block is never
/// valid.
pub proof fn lemma_immature_spend_rejected(b: BlockV, prev: BlockV, i: int, j: int)
    requires
        0 <= i < b.transactions.len(),
        0 <= j < b.transactions[i].from.len(),
        b.transactions[i].tx_type == TransactionType::Base,
        b.transactions[i].from[j].amount > 0,
        (b.transactions[i].from[j].block_id as int) < b.id - GENESIS_PERIOD,
    ensures
        !spec_block_valid(b, prev),
{
    assert(!spec_maturity_ok(b));
}

/// A block passes the maturity rule as soon as every positive-amount
/// base-kind input references a slip within the genesis period; aged
/// slips with no positive amount never offend it.
pub proof fn lemma_maturity_ok_of(b: BlockV)
    requires
        forall|i: int, j: int|
            0 <= i < b.transactions.len() && 0 <= j < b.transactions[i].from.len()
                && b.transactions[i].tx_type == TransactionType::Base
                && #[trigger] b.transactions[i].from[j].amount > 0 ==> (
            b.transactions[i].from[j].block_id as int) >= b.id - GENESIS_PERIOD,
    ensures
        spec_maturity_ok(b),
{
}

/// The largest slip amount the reward arithmetic is specified for.
pub const AMOUNT_LIMIT: i64 = 0x4_0000_0000_0000;

/// Every slip amount in the block stays within [`AMOUNT_LIMIT`], on top
/// of the slip-count bounds of [`spec_block_fees_bounded`].
pub open spec fn spec_block_amounts_bounded(b: BlockV) -> bool {
    &&& spec_block_fees_bounded(b)
    &&& forall|i: int, j: int|
        0 <= i < b.transactions.len() && 0 <= j < b.transactions[i].from.len()
            ==> -AMOUNT_LIMIT <= #[trigger] b.transactions[i].from[j].amount <= AMOUNT_LIMIT
    &&& forall|i: int, j: int|
        0 <= i < b.transactions.len() && 0 <= j < b.transactions[i].to.len() ==> -AMOUNT_LIMIT
            <= #[trigger] b.transactions[i].to[j].amount <= AMOUNT_LIMIT
}

/// With bounded amounts and slip counts, the fee sum over the block is
/// small enough for the reward arithmetic.
pub proof fn lemma_available_fees_amount_bounds(b: BlockV, key: Seq<u8>)
    requires
        spec_block_amounts_bounded(b),
    ensures
        -0x10000_0000_0000_0000_0000_0000_0000 <= spec_available_fees(b.transactions, key),
        spec_available_fees(b.transactions, key) <= 0x10000_0000_0000_0000_0000_0000_0000,
{
    lemma_available_fees_amount_bounds_rec(b, b.transactions.len() as int, key);
    assert(b.transactions.take(b.transactions.len() as int) =~= b.transactions);
    assert((b.transactions.len() as int) * 0x1_0000_0000_0000_0000_0000 <= 0x1_0000_0000
        * 0x1_0000_0000_0000_0000_0000) by (nonlinear_arith)
        requires
            0 <= b.transactions.len() <= 0x1_0000_0000,
    ;
}

/// The prefix version of the bounded fee sum.
proof fn lemma_available_fees_amount_bounds_rec(b: BlockV, k: int, key: Seq<u8>)
    requires
        spec_block_amounts_bounded(b),
        0 <= k <= b.transactions.len(),
    ensures
        -k * 0x1_0000_0000_0000_0000_0000 <= spec_available_fees(b.transactions.take(k), key),
        spec_available_fees(b.transactions.take(k), key) <= k * 0x1_0000_0000_0000_0000_0000,
    decreases k,
{
    let ts = b.transactions;
    if k == 0 {
        assert(ts.take(0) =~= Seq::<TxV>::empty());
    } else {
        lemma_available_fees_amount_bounds_rec(b, k - 1, key);
        assert(ts.take(k).drop_last() =~= ts.take(k - 1));
        assert(ts.take(k).last() == ts[k - 1]);
        let t = ts[k - 1];
        assert(forall|j: int|
            0 <= j < t.from.len() ==> -AMOUNT_LIMIT <= #[trigger] t.from[j].amount
                <= AMOUNT_LIMIT);
        assert(forall|j: int|
            0 <= j < t.to.len() ==> -AMOUNT_LIMIT <= #[trigger] t.to[j].amount <= AMOUNT_LIMIT);
        crate::transaction::lemma_sum_owned_bounded_by(t.from, key, AMOUNT_LIMIT as int);
        crate::transaction::lemma_sum_owned_bounded_by(t.to, key, AMOUNT_LIMIT as int);
        assert(t.from.len() + t.to.len() <= 0x4000_0000);
        assert((t.from.len() as int) * 0x4_0000_0000_0000 <= 0x4000_0000 * 0x4_0000_0000_0000)
            by (nonlinear_arith)
            requires
                0 <= t.from.len() <= 0x4000_0000,
        ;
        assert((t.to.len() as int) * 0x4_0000_0000_0000 <= 0x4000_0000 * 0x4_0000_0000_0000)
            by (nonlinear_arith)
            requires
                0 <= t.to.len() <= 0x4000_0000,
        ;
        assert((k - 1) * 0x1_0000_0000_0000_0000_0000 + 0x1_0000_0000_0000_0000_0000 == k
            * 0x1_0000_0000_0000_0000_0000) by (nonlinear_arith);
    }
}

/// One transaction with its output slips stamped by the confirming block.
pub open spec fn spec_update_tx(t: TxV, h: Seq<u8>, bid: u32) -> TxV {
    TxV {
        to: Seq::new(
            t.to.len(),
            |j: int|
                SlipV { block_hash: h, block_id: bid, transaction_id: t.id, ..t.to[j] },
        ),
        ..t
    }
}

/// Every transaction with its output slips stamped by the confirming
/// block.
pub open spec fn spec_update_slips(ts: Seq<TxV>, h: Seq<u8>, bid: u32) -> Seq<TxV> {
    Seq::new(ts.len(), |k: int| spec_update_tx(ts[k], h, bid))
}

/// Collects the canonical index of every input slip, in block order.
fn collect_from_indices(v: &Vec<Transaction>) -> (r: Vec<Vec<u8>>)
    ensures
        r@.map_values(|b: Vec<u8>| b@) == spec_all_from_indices(
            v@.map_values(|t: Transaction| t@),
        ),
{
    let ghost ts = v@.map_values(|t: Transaction| t@);
    let mut r: Vec<Vec<u8>> = Vec::new();
    let n = v.len();
    let mut i: usize = 0;
    while i < n
        invariant
            n == v@.len(),
            ts == v@.map_values(|t: Transaction| t@),
            i <= n,
            r@.map_values(|b: Vec<u8>| b@) == spec_all_from_indices(ts.take(i as int)),
        decreases n - i,
    {
        let tx = &v[i];
        proof {
            assert(tx@ == ts[i as int]);
        }
        let nf = tx.from.len();
        let mut j: usize = 0;
        while j < nf
            invariant
                nf == tx.from@.len(),
                tx@ == ts[i as int],
                i < n,
                n == v@.len(),
                ts == v@.map_values(|t: Transaction| t@),
                j <= nf,
                r@.map_values(|b: Vec<u8>| b@) == spec_all_from_indices(ts.take(i as int))
                    + spec_from_indices_of(ts[i as int]).take(j as int),
            decreases nf - j,
        {
            let idx = tx.from[j].return_index();
            proof {
                assert(tx.from@[j as int]@ == ts[i as int].from[j as int]);
                assert(idx@ == codec::spec_enc_slip(ts[i as int].from[j as int]));
                assert(spec_from_indices_of(ts[i as int])[j as int] == codec::spec_enc_slip(
                    ts[i as int].from[j as int],
                ));
            }
            let ghost rold = r@;
            r.push(idx);
            proof {
                rold.lemma_push_map_commute(|b: Vec<u8>| b@, idx);
                assert(spec_from_indices_of(ts[i as int]).take(j + 1) =~= spec_from_indices_of(
                    ts[i as int],
                ).take(j as int).push(spec_from_indices_of(ts[i as int])[j as int]));
                assert(r@.map_values(|b: Vec<u8>| b@) =~= spec_all_from_indices(ts.take(i as int))
                    + spec_from_indices_of(ts[i as int]).take(j + 1));
            }
            j = j + 1;
        }
        proof {
            assert(spec_from_indices_of(ts[i as int]).take(nf as int) =~= spec_from_indices_of(
                ts[i as int],
            ));
            assert(ts.take(i + 1).drop_last() =~= ts.take(i as int));
            assert(ts.take(i + 1).last() == ts[i as int]);
            assert(r@.map_values(|b: Vec<u8>| b@) =~= spec_all_from_indices(ts.take(i + 1)));
        }
        i = i + 1;
    }
    assert(ts.take(n as int) =~= ts);
    r
}

/// True exactly when no byte string occurs twice.
fn seqs_all_distinct(v: &Vec<Vec<u8>>) -> (r: bool)
    ensures
        r == spec_distinct(v@.map_values(|b: Vec<u8>| b@)),
{
    let ghost s = v@.map_values(|b: Vec<u8>| b@);
    let n = v.len();
    let mut i: usize = 0;
    while i < n
        invariant
            n == v@.len(),
            s == v@.map_values(|b: Vec<u8>| b@),
            i <= n,
            forall|a: int, b: int| 0 <= a < b < i ==> s[a] != s[b],
        decreases n - i,
    {
        let mut j: usize = 0;
        while j < i
            invariant
                n == v@.len(),
                s == v@.map_values(|b: Vec<u8>| b@),
                i < n,
                j <= i,
                forall|a: int, b: int| 0 <= a < b < i ==> s[a] != s[b],
                forall|b: int| 0 <= b < j ==> s[b] != s[i as int],
            decreases i - j,
        {
            if bytes::bytes_eq(&v[i], &v[j]) {
                assert(s[j as int] == s[i as int]);
                assert(!spec_distinct(s));
                return false;
            }
            j = j + 1;
        }
        i = i + 1;
    }
    true
}

} // verus!

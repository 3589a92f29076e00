//! The blockchain: the accepted blocks, the id counters, and the
//! shashmap — the global index from slip index to confirming block id
//! that decides spendability.

use vstd::prelude::*;
use vstd::pervasive::VecAdditionalExecFns;
use crate::block::{spec_block_hash, spec_block_valid, Block, BlockV};
use crate::bytes;
use crate::codec;
use crate::helper;
use crate::slip::SlipV;
use crate::transaction::{Transaction, TxV};
use crate::wallet::{spec_apply_txs, Wallet};

verus! {

/// The map an association list denotes: later entries win.
pub open spec fn spec_map_of(ks: Seq<Seq<u8>>, vs: Seq<u32>) -> Map<Seq<u8>, u32>
    decreases ks.len(),
{
    if ks.len() == 0 || ks.len() != vs.len() {
        Map::<Seq<u8>, u32>::empty()
    } else {
        spec_map_of(ks.drop_last(), vs.drop_last()).insert(ks.last(), vs.last())
    }
}

/// A listed key maps to its listed value when keys are distinct.
pub proof fn lemma_map_of_lookup(ks: Seq<Seq<u8>>, vs: Seq<u32>, i: int)
    requires
        ks.len() == vs.len(),
        0 <= i < ks.len(),
        forall|a: int, b: int| 0 <= a < b < ks.len() ==> ks[a] != ks[b],
    ensures
        spec_map_of(ks, vs).dom().contains(ks[i]),
        spec_map_of(ks, vs)[ks[i]] == vs[i],
    decreases ks.len(),
{
    if i < ks.len() - 1 {
        lemma_map_of_lookup(ks.drop_last(), vs.drop_last(), i);
    }
}

/// An unlisted key is outside the map's domain.
pub proof fn lemma_map_of_absent(ks: Seq<Seq<u8>>, vs: Seq<u32>, key: Seq<u8>)
    requires
        ks.len() == vs.len(),
        forall|j: int| 0 <= j < ks.len() ==> ks[j] != key,
    ensures
        !spec_map_of(ks, vs).dom().contains(key),
    decreases ks.len(),
{
    if ks.len() > 0 {
        lemma_map_of_absent(ks.drop_last(), vs.drop_last(), key);
    }
}

/// Updating a listed value in place is a map insert at its key.
pub proof fn lemma_map_of_update(ks: Seq<Seq<u8>>, vs: Seq<u32>, i: int, v: u32)
    requires
        ks.len() == vs.len(),
        0 <= i < ks.len(),
        forall|a: int, b: int| 0 <= a < b < ks.len() ==> ks[a] != ks[b],
    ensures
        spec_map_of(ks, vs.update(i, v)) == spec_map_of(ks, vs).insert(ks[i], v),
    decreases ks.len(),
{
    if i == ks.len() - 1 {
        assert(vs.update(i, v).drop_last() =~= vs.drop_last());
        assert(vs.update(i, v).last() == v);
        assert(spec_map_of(ks, vs.update(i, v)) =~= spec_map_of(ks, vs).insert(ks[i], v));
    } else {
        assert(vs.update(i, v).drop_last() =~= vs.drop_last().update(i, v));
        lemma_map_of_update(ks.drop_last(), vs.drop_last(), i, v);
        assert(ks[i] != ks.last());
        assert(spec_map_of(ks, vs.update(i, v)) =~= spec_map_of(ks, vs).insert(ks[i], v));
    }
}

/// The slip-spendability index: slip index bytes mapped to the id of the
/// confirming block.
pub struct ShashMap {
    keys: Vec<Vec<u8>>,
    vals: Vec<u32>,
}

impl View for ShashMap {
    type V = Map<Seq<u8>, u32>;

    closed spec fn view(&self) -> Map<Seq<u8>, u32> {
        spec_map_of(self.keys@.map_values(|k: Vec<u8>| k@), self.vals@)
    }
}

impl ShashMap {
    /// The entries are consistent: one value per key, each key listed
    /// once.
    pub closed spec fn wf(&self) -> bool {
        &&& self.keys@.len() == self.vals@.len()
        &&& crate::block::spec_distinct(self.keys@.map_values(|k: Vec<u8>| k@))
    }

    /// An empty index.
    pub fn new() -> (r: ShashMap)
        ensures
            r@ == Map::<Seq<u8>, u32>::empty(),
            r.wf(),
    {
        let r = ShashMap { keys: Vec::new(), vals: Vec::new() };
        assert(r.keys@.map_values(|k: Vec<u8>| k@) =~= Seq::<Seq<u8>>::empty());
        r
    }

    /// Binds `key` to `val`, replacing any earlier binding.
    pub fn insert(&mut self, key: Vec<u8>, val: u32)
        requires
            old(self).wf(),
        ensures
            final(self).wf(),
            final(self)@ == old(self)@.insert(key@, val),
    {
        let ghost ks = self.keys@.map_values(|k: Vec<u8>| k@);
        let ghost vs = self.vals@;
        let n = self.keys.len();
        let mut i: usize = 0;
        while i < n
            invariant
                n == self.keys@.len(),
                self.wf(),
                ks == self.keys@.map_values(|k: Vec<u8>| k@),
                vs == self.vals@,
                spec_map_of(ks, vs) == old(self)@,
                i <= n,
                forall|j: int| 0 <= j < i ==> ks[j] != key@,
            decreases n - i,
        {
            proof {
                assert(self.keys@[i as int]@ == ks[i as int]);
            }
            if bytes::bytes_eq(&self.keys[i], &key) {
                self.vals.set(i, val);
                proof {
                    lemma_map_of_update(ks, vs, i as int, val);
                    assert(ks[i as int] == key@);
                    assert(self.keys@.map_values(|k: Vec<u8>| k@) == ks);
                    assert(self.vals@ =~= vs.update(i as int, val));
                    assert(self@ == spec_map_of(ks, vs.update(i as int, val)));
                    assert(old(self)@ == spec_map_of(ks, vs));
                }
                return ;
            }
            i = i + 1;
        }
        proof {
            lemma_map_of_absent(ks, vs, key@);
        }
        let ghost kold = self.keys@;
        self.keys.push(key);
        self.vals.push(val);
        proof {
            kold.lemma_push_map_commute(|k: Vec<u8>| k@, key);
            assert(self.keys@.map_values(|k: Vec<u8>| k@).drop_last() =~= ks);
            assert(self.vals@.drop_last() =~= vs);
        }
    }

    /// The confirming block id bound to `key`, if any.
    pub fn get(&self, key: &Vec<u8>) -> (r: Option<u32>)
        requires
            self.wf(),
        ensures
            match r {
                Some(v) => self@.dom().contains(key@) && self@[key@] == v,
                None => !self@.dom().contains(key@),
            },
    {
        let ghost ks = self.keys@.map_values(|k: Vec<u8>| k@);
        let n = self.keys.len();
        let mut i: usize = 0;
        while i < n
            invariant
                n == self.keys@.len(),
                self.keys@.len() == self.vals@.len(),
                self.wf(),
                ks == self.keys@.map_values(|k: Vec<u8>| k@),
                i <= n,
                forall|j: int| 0 <= j < i ==> ks[j] != key@,
            decreases n - i,
        {
            proof {
                assert(self.keys@[i as int]@ == ks[i as int]);
            }
            if bytes::bytes_eq(&self.keys[i], key) {
                proof {
                    lemma_map_of_lookup(ks, self.vals@, i as int);
                }
                return Some(self.vals[i]);
            }
            i = i + 1;
        }
        proof {
            lemma_map_of_absent(ks, self.vals@, key@);
        }
        None
    }
}

/// The index after one transaction's output slips are confirmed at
/// `bid`.
pub open spec fn spec_shash_slips(m: Map<Seq<u8>, u32>, slips: Seq<SlipV>, bid: u32) -> Map<
    Seq<u8>,
    u32,
>
    decreases slips.len(),
{
    if slips.len() == 0 {
        m
    } else {
        spec_shash_slips(m, slips.drop_last(), bid).insert(
            codec::spec_enc_slip(slips.last()),
            bid,
        )
    }
}

/// The index after every transaction's output slips are confirmed at
/// `bid`, in order.
pub open spec fn spec_shash_txs(m: Map<Seq<u8>, u32>, ts: Seq<TxV>, bid: u32) -> Map<Seq<u8>, u32>
    decreases ts.len(),
{
    if ts.len() == 0 {
        m
    } else {
        spec_shash_slips(spec_shash_txs(m, ts.drop_last(), bid), ts.last().to, bid)
    }
}

/// Whether the index lets a referenced input slip be spent: it must be
/// listed with a nonzero confirming block id.
pub open spec fn spec_slip_spendable(m: Map<Seq<u8>, u32>, idx: Seq<u8>) -> bool {
    m.dom().contains(idx) && m[idx] != 0
}

/// Every input slip of every transaction is spendable under the index.
pub open spec fn spec_inputs_valid(m: Map<Seq<u8>, u32>, ts: Seq<TxV>) -> bool {
    forall|i: int, j: int|
        0 <= i < ts.len() && 0 <= j < ts[i].from.len() ==> spec_slip_spendable(
            m,
            codec::spec_enc_slip(ts[i].from[j]),
        )
}

/// The ordered accepted blocks, the monotonic id counters, and the
/// shashmap.
pub struct Blockchain {
    genesis_ts: u128,
    last_block_id: u32,
    last_tx_id: u32,
    last_slip_id: u32,
    pub blocks: Vec<Block>,
    pub shashmap: ShashMap,
}

/// The mathematical image of a [`Blockchain`].
pub ghost struct BlockchainV {
    pub genesis_ts: u128,
    pub last_block_id: u32,
    pub last_tx_id: u32,
    pub last_slip_id: u32,
    pub blocks: Seq<BlockV>,
    pub shashmap: Map<Seq<u8>, u32>,
}

impl View for Blockchain {
    type V = BlockchainV;

    closed spec fn view(&self) -> BlockchainV {
        BlockchainV {
            genesis_ts: self.genesis_ts,
            last_block_id: self.last_block_id,
            last_tx_id: self.last_tx_id,
            last_slip_id: self.last_slip_id,
            blocks: self.blocks@.map_values(|b: Block| b@),
            shashmap: self.shashmap@,
        }
    }
}

impl Blockchain {
    /// The shashmap's entries are consistent.
    pub closed spec fn wf(&self) -> bool {
        self.shashmap.wf()
    }

    /// An empty chain: no blocks, counters at their starting values,
    /// an empty shashmap, and the current time as the genesis timestamp.
    pub fn new() -> (r: Blockchain)
        ensures
            r@.last_block_id == 0,
            r@.last_tx_id == 1,
            r@.last_slip_id == 1,
            r@.blocks == Seq::<BlockV>::empty(),
            r@.shashmap == Map::<Seq<u8>, u32>::empty(),
            r.wf(),
    {
        let r = Blockchain {
            genesis_ts: helper::time_since_unix_epoch(),
            last_block_id: 0,
            last_tx_id: 1,
            last_slip_id: 1,
            blocks: Vec::new(),
            shashmap: ShashMap::new(),
        };
        assert(r@.blocks =~= Seq::<BlockV>::empty());
        r
    }

    /// Adopts already-loaded blocks: replays every block's transactions
    /// into the wallet, in order, and advances the id counters past the
    /// last block's contents.
    pub fn initialize(&mut self, wallet: &mut Wallet, blocks: Vec<Block>)
        requires
            blocks@.len() > 0 ==> {
                let last = blocks@.last()@;
                &&& crate::block::spec_total_slips(last.transactions) + old(self)@.last_slip_id
                    <= u32::MAX
                &&& last.transactions.len() + old(self)@.last_tx_id <= u32::MAX
            },
        ensures
            final(self)@.blocks == blocks@.map_values(|b: Block| b@),
            final(self)@.shashmap == old(self)@.shashmap,
            final(self)@.genesis_ts == old(self)@.genesis_ts,
            final(wallet)@.publickey == old(wallet)@.publickey,
            final(wallet)@.privatekey == old(wallet)@.privatekey,
            final(wallet)@.inputs == spec_replay(
                old(wallet)@.inputs,
                old(wallet)@.outputs,
                blocks@.map_values(|b: Block| b@),
                old(wallet)@.publickey,
            ).0,
            final(wallet)@.outputs == spec_replay(
                old(wallet)@.inputs,
                old(wallet)@.outputs,
                blocks@.map_values(|b: Block| b@),
                old(wallet)@.publickey,
            ).1,
            blocks@.len() == 0 ==> final(self)@.last_block_id == old(self)@.last_block_id
                && final(self)@.last_tx_id == old(self)@.last_tx_id && final(self)@.last_slip_id
                == old(self)@.last_slip_id,
            blocks@.len() > 0 ==> {
                &&& final(self)@.last_block_id == blocks@.last()@.id
                &&& final(self)@.last_tx_id == blocks@.last()@.transactions.len() + old(
                    self,
                )@.last_tx_id
                &&& final(self)@.last_slip_id == crate::block::spec_total_slips(
                    blocks@.last()@.transactions,
                ) + old(self)@.last_slip_id
            },
            final(self).wf() == old(self).wf(),
    {
        let ghost bs = blocks@.map_values(|b: Block| b@);
        let ghost inp0 = wallet@.inputs;
        let ghost out0 = wallet@.outputs;
        let ghost key = wallet@.publickey;
        let n = blocks.len();
        let mut k: usize = 0;
        proof {
            assert(bs.take(0) =~= Seq::<BlockV>::empty());
        }
        while k < n
            invariant
                n == blocks@.len(),
                bs == blocks@.map_values(|b: Block| b@),
                k <= n,
                wallet@.publickey == key,
                wallet@.privatekey == old(wallet)@.privatekey,
                inp0 == old(wallet)@.inputs,
                out0 == old(wallet)@.outputs,
                key == old(wallet)@.publickey,
                wallet@.inputs == spec_replay(inp0, out0, bs.take(k as int), key).0,
                wallet@.outputs == spec_replay(inp0, out0, bs.take(k as int), key).1,
            decreases n - k,
        {
            let txs = blocks[k].return_transactions();
            proof {
                assert(blocks@[k as int]@ == bs[k as int]);
                assert(bs.take(k + 1).drop_last() =~= bs.take(k as int));
                assert(bs.take(k + 1).last() == bs[k as int]);
            }
            wallet.process_payment(txs);
            k = k + 1;
        }
        proof {
            assert(bs.take(n as int) =~= bs);
        }
        if blocks.len() > 0 {
            let last = &blocks[blocks.len() - 1];
            proof {
                assert(blocks@[blocks@.len() - 1] == blocks@.last());
                assert(blocks@.last()@ == bs.last());
            }
            self.last_block_id = last.return_id();
            self.last_tx_id = last.return_tx_len() + self.last_tx_id;
            self.last_slip_id = last.return_slip_len() + self.last_slip_id;
        }
        self.blocks = blocks;
    }

    /// Appends an accepted block and marks every output slip it confirms
    /// as spendable from this block's id on.  Callers persist the block
    /// before appending it.
    pub fn add_block(&mut self, new_block: Block)
        requires
            old(self).wf(),
        ensures
            final(self).wf(),
            final(self)@ == (BlockchainV {
                blocks: old(self)@.blocks.push(new_block@),
                shashmap: spec_shash_txs(
                    old(self)@.shashmap,
                    new_block@.transactions,
                    new_block@.id,
                ),
                ..old(self)@
            }),
    {
        self.update_shashmap(&new_block);
        let ghost bold = self.blocks@;
        self.blocks.push(new_block);
        proof {
            bold.lemma_push_map_commute(|b: Block| b@, new_block);
        }
    }

    /// Marks every output slip of the block's transactions as confirmed
    /// at the block's id.
    pub fn update_shashmap(&mut self, block: &Block)
        requires
            old(self).wf(),
        ensures
            final(self).wf(),
            final(self)@ == (BlockchainV {
                shashmap: spec_shash_txs(old(self)@.shashmap, block@.transactions, block@.id),
                ..old(self)@
            }),
    {
        let ghost ts = block@.transactions;
        let ghost m0 = self@.shashmap;
        let bid = block.id;
        let n = block.transactions.len();
        let mut k: usize = 0;
        proof {
            assert(ts.take(0) =~= Seq::<TxV>::empty());
        }
        while k < n
            invariant
                n == block.transactions@.len(),
                ts == block@.transactions,
                bid == block@.id,
                k <= n,
                self.wf(),
                m0 == old(self)@.shashmap,
                self@.shashmap == spec_shash_txs(m0, ts.take(k as int), bid),
                self@.blocks == old(self)@.blocks,
                self@.genesis_ts == old(self)@.genesis_ts,
                self@.last_block_id == old(self)@.last_block_id,
                self@.last_tx_id == old(self)@.last_tx_id,
                self@.last_slip_id == old(self)@.last_slip_id,
            decreases n - k,
        {
            let tx = &block.transactions[k];
            proof {
                assert(tx@ == ts[k as int]);
            }
            let ghost mk = self@.shashmap;
            let nt = tx.to.len();
            let mut j: usize = 0;
            proof {
                assert(tx@.to.take(0) =~= Seq::<SlipV>::empty());
            }
            while j < nt
                invariant
                    nt == tx.to@.len(),
                    tx@ == ts[k as int],
                    bid == block@.id,
                    j <= nt,
                    self.wf(),
                    self@.shashmap == spec_shash_slips(mk, tx@.to.take(j as int), bid),
                    self@.blocks == old(self)@.blocks,
                    self@.genesis_ts == old(self)@.genesis_ts,
                    self@.last_block_id == old(self)@.last_block_id,
                    self@.last_tx_id == old(self)@.last_tx_id,
                    self@.last_slip_id == old(self)@.last_slip_id,
                decreases nt - j,
            {
                let slip = &tx.to[j];
                proof {
                    assert(slip@ == tx@.to[j as int]);
                    assert(tx@.to.take(j + 1).drop_last() =~= tx@.to.take(j as int));
                    assert(tx@.to.take(j + 1).last() == tx@.to[j as int]);
                }
                let idx = slip.return_index();
                self.insert_slip(idx, bid);
                j = j + 1;
            }
            proof {
                assert(tx@.to.take(nt as int) =~= tx@.to);
                assert(ts.take(k + 1).drop_last() =~= ts.take(k as int));
                assert(ts.take(k + 1).last() == ts[k as int]);
            }
            k = k + 1;
        }
        proof {
            assert(ts.take(n as int) =~= ts);
        }
    }

    /// The chain-level acceptance check: the first two blocks pass
    /// unconditionally (bootstrap exemption); later blocks must pass the
    /// block-level checks against the tip, and every input slip they
    /// reference must be spendable under the shashmap.
    pub fn validate_block(&self, new_block: &Block) -> (r: bool)
        requires
            self.wf(),
            new_block@.id > 2 ==> self@.blocks.len() > 0,
        ensures
            r == (new_block@.id > 2 ==> spec_block_valid(new_block@, self@.blocks.last())
                && spec_inputs_valid(self@.shashmap, new_block@.transactions)),
    {
        if new_block.return_id() > 2 {
            let tip = &self.blocks[self.blocks.len() - 1];
            proof {
                assert(self.blocks@[self.blocks@.len() - 1]@ == self@.blocks.last());
            }
            if !new_block.validate(tip) {
                return false;
            }
            if !self.validate_transaction_inputs(new_block) {
                return false;
            }
        }
        true
    }

    /// Checks every input slip of the block against the shashmap.
    fn validate_transaction_inputs(&self, block: &Block) -> (r: bool)
        requires
            self.wf(),
        ensures
            r == spec_inputs_valid(self@.shashmap, block@.transactions),
    {
        let ghost ts = block@.transactions;
        let n = block.transactions.len();
        let mut i: usize = 0;
        while i < n
            invariant
                n == block.transactions@.len(),
                ts == block@.transactions,
                self.wf(),
                i <= n,
                forall|a: int, j: int|
                    0 <= a < i && 0 <= j < ts[a].from.len() ==> spec_slip_spendable(
                        self@.shashmap,
                        codec::spec_enc_slip(ts[a].from[j]),
                    ),
            decreases n - i,
        {
            let tx = &block.transactions[i];
            proof {
                assert(tx@ == ts[i as int]);
            }
            let nf = tx.from.len();
            let mut j: usize = 0;
            while j < nf
                invariant
                    nf == tx.from@.len(),
                    tx@ == ts[i as int],
                    i < n,
                    n == block.transactions@.len(),
                    ts == block@.transactions,
                    self.wf(),
                    j <= nf,
                    forall|b: int|
                        0 <= b < j ==> spec_slip_spendable(
                            self@.shashmap,
                            codec::spec_enc_slip(ts[i as int].from[b]),
                        ),
                decreases nf - j,
            {
                let slip = &tx.from[j];
                proof {
                    assert(slip@ == ts[i as int].from[j as int]);
                }
                let idx = slip.return_index();
                if !self.validate_existing_slip(&idx, block.id) {
                    assert(!spec_slip_spendable(
                        self@.shashmap,
                        codec::spec_enc_slip(ts[i as int].from[j as int]),
                    ));
                    return false;
                }
                j = j + 1;
            }
            i = i + 1;
        }
        true
    }

    /// Binds a slip index to the block that confirmed it.
    fn insert_slip(&mut self, slip_index: Vec<u8>, current_block_id: u32)
        requires
            old(self).wf(),
        ensures
            final(self).wf(),
            final(self)@ == (BlockchainV {
                shashmap: old(self)@.shashmap.insert(slip_index@, current_block_id),
                ..old(self)@
            }),
    {
        self.shashmap.insert(slip_index, current_block_id);
    }

    /// Whether a referenced slip may be spent: it must be listed with a
    /// nonzero confirming block id.  A confirming id at or after the
    /// spending block id is accepted, as the consensus rule stands.
    fn validate_existing_slip(&self, slip_index: &Vec<u8>, current_block_id: u32) -> (r: bool)
        requires
            self.wf(),
        ensures
            r == spec_slip_spendable(self@.shashmap, slip_index@),
    {
        match self.shashmap.get(slip_index) {
            None => false,
            Some(id) => {
                if id == 0 {
                    false
                } else if id > current_block_id {
                    true
                } else {
                    true
                }
            },
        }
    }

    /// The hash of the chain tip.
    pub fn return_previous_hash(&self) -> (r: Vec<u8>)
        requires
            self@.blocks.len() > 0,
        ensures
            r@ == spec_block_hash(self@.blocks.last()),
            r@.len() == 32,
    {
        let tip = &self.blocks[self.blocks.len() - 1];
        proof {
            assert(self.blocks@[self.blocks@.len() - 1]@ == self@.blocks.last());
        }
        tip.return_block_hash()
    }

    /// The id of the most recently accepted block.
    pub fn return_last_block_id(&self) -> (r: u32)
        ensures
            r == self@.last_block_id,
    {
        self.last_block_id
    }

    /// The next transaction id to assign.
    pub fn return_last_tx_id(&self) -> (r: u32)
        ensures
            r == self@.last_tx_id,
    {
        self.last_tx_id
    }

    /// The next slip id to assign.
    pub fn return_last_slip_id(&self) -> (r: u32)
        ensures
            r == self@.last_slip_id,
    {
        self.last_slip_id
    }

    /// How many blocks the chain holds.
    pub fn return_blocks_length(&self) -> (r: usize)
        ensures
            r == self@.blocks.len(),
    {
        self.blocks.len()
    }

    /// Advances the block counter after an accepted block.
    pub fn increment_block_id(&mut self)
        requires
            old(self)@.last_block_id < u32::MAX,
        ensures
            final(self)@ == (BlockchainV {
                last_block_id: (old(self)@.last_block_id + 1) as u32,
                ..old(self)@
            }),
            final(self).wf() == old(self).wf(),
    {
        self.last_block_id = self.last_block_id + 1;
    }

    /// Records the transaction counter after an accepted block.
    pub fn update_tx_id(&mut self, tx_id: u32)
        ensures
            final(self)@ == (BlockchainV { last_tx_id: tx_id, ..old(self)@ }),
            final(self).wf() == old(self).wf(),
    {
        self.last_tx_id = tx_id;
    }

    /// Records the slip counter after an accepted block.
    pub fn update_slip_id(&mut self, slip_id: u32)
        ensures
            final(self)@ == (BlockchainV { last_slip_id: slip_id, ..old(self)@ }),
            final(self).wf() == old(self).wf(),
    {
        self.last_slip_id = slip_id;
    }
}

/// The wallet's slip lists after every block's transactions are
/// replayed, in order.
pub open spec fn spec_replay(
    inp: Seq<SlipV>,
    out: Seq<SlipV>,
    bs: Seq<BlockV>,
    key: Seq<u8>,
) -> (Seq<SlipV>, Seq<SlipV>)
    decreases bs.len(),
{
    if bs.len() == 0 {
        (inp, out)
    } else {
        let p = spec_replay(inp, out, bs.drop_last(), key);
        spec_apply_txs(p.0, p.1, bs.last().transactions, key)
    }
}

} // verus!

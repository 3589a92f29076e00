//! The wallet: the owner's spendable slips, spend history, and spend
//! construction.

use vstd::prelude::*;
use vstd::pervasive::VecAdditionalExecFns;
use crate::bytes;
use crate::codec;
use crate::crypto;
use crate::helper;
use crate::slip::{Slip, SlipV};
use crate::transaction::{
    spec_sum_amounts, sum_slip_amounts, Transaction, TransactionType, TxV,
};

verus! {

/// The owner's keypair, the slips it can spend (`inputs`, keyed by slip
/// index), and the slips it has spent (`outputs`, kept as history).
pub struct Wallet {
    publickey: Vec<u8>,
    privatekey: Vec<u8>,
    inputs: Vec<Slip>,
    outputs: Vec<Slip>,
}

/// The mathematical image of a [`Wallet`].
pub ghost struct WalletV {
    pub publickey: Seq<u8>,
    pub privatekey: Seq<u8>,
    pub inputs: Seq<SlipV>,
    pub outputs: Seq<SlipV>,
}

impl View for Wallet {
    type V = WalletV;

    closed spec fn view(&self) -> WalletV {
        WalletV {
            publickey: self.publickey@,
            privatekey: self.privatekey@,
            inputs: self.inputs@.map_values(|s: Slip| s@),
            outputs: self.outputs@.map_values(|s: Slip| s@),
        }
    }
}

/// The position of the first slip whose index is `key`, searching from
/// `i`; `-1` if none.
pub open spec fn spec_find_at(s: Seq<SlipV>, key: Seq<u8>, i: int) -> int
    decreases s.len() - i,
{
    if i < 0 || i >= s.len() {
        -1
    } else if codec::spec_enc_slip(s[i]) == key {
        i
    } else {
        spec_find_at(s, key, i + 1)
    }
}

/// What a successful or failed search means.
pub proof fn lemma_find_at_props(s: Seq<SlipV>, key: Seq<u8>, i: int)
    requires
        0 <= i <= s.len(),
    ensures
        spec_find_at(s, key, i) == -1 ==> forall|j: int|
            i <= j < s.len() ==> codec::spec_enc_slip(s[j]) != key,
        spec_find_at(s, key, i) != -1 ==> i <= spec_find_at(s, key, i) < s.len()
            && codec::spec_enc_slip(s[spec_find_at(s, key, i)]) == key,
    decreases s.len() - i,
{
    if i < s.len() {
        lemma_find_at_props(s, key, i + 1);
    }
}

/// The slip list with `x` replacing the slip that shares its index, or
/// appended if none does.
pub open spec fn spec_upsert(s: Seq<SlipV>, x: SlipV) -> Seq<SlipV> {
    let i = spec_find_at(s, codec::spec_enc_slip(x), 0);
    if i >= 0 {
        s.update(i, x)
    } else {
        s.push(x)
    }
}

/// The slip list without the slip whose index is `key`, if present.
pub open spec fn spec_remove_slip(s: Seq<SlipV>, key: Seq<u8>) -> Seq<SlipV> {
    let i = spec_find_at(s, key, 0);
    if i >= 0 {
        s.remove(i)
    } else {
        s
    }
}

/// One input slip processed: a slip owned by `key` moves from `inp` to
/// `out`.
pub open spec fn spec_spend_slip(
    inp: Seq<SlipV>,
    out: Seq<SlipV>,
    s: SlipV,
    key: Seq<u8>,
) -> (Seq<SlipV>, Seq<SlipV>) {
    if s.address == key {
        (spec_remove_slip(inp, codec::spec_enc_slip(s)), spec_upsert(out, s))
    } else {
        (inp, out)
    }
}

/// Every input slip of a transaction processed, in order.
pub open spec fn spec_apply_from(
    inp: Seq<SlipV>,
    out: Seq<SlipV>,
    slips: Seq<SlipV>,
    key: Seq<u8>,
) -> (Seq<SlipV>, Seq<SlipV>)
    decreases slips.len(),
{
    if slips.len() == 0 {
        (inp, out)
    } else {
        let p = spec_apply_from(inp, out, slips.drop_last(), key);
        spec_spend_slip(p.0, p.1, slips.last(), key)
    }
}

/// One output slip processed: a slip owned by `key` joins `inp`.
pub open spec fn spec_receive_slip(inp: Seq<SlipV>, s: SlipV, key: Seq<u8>) -> Seq<SlipV> {
    if s.address == key {
        spec_upsert(inp, s)
    } else {
        inp
    }
}

/// Every output slip of a transaction processed, in order.
pub open spec fn spec_apply_to(inp: Seq<SlipV>, slips: Seq<SlipV>, key: Seq<u8>) -> Seq<SlipV>
    decreases slips.len(),
{
    if slips.len() == 0 {
        inp
    } else {
        spec_receive_slip(spec_apply_to(inp, slips.drop_last(), key), slips.last(), key)
    }
}

/// One transaction processed: inputs spent, then outputs received.
pub open spec fn spec_apply_tx(
    inp: Seq<SlipV>,
    out: Seq<SlipV>,
    t: TxV,
    key: Seq<u8>,
) -> (Seq<SlipV>, Seq<SlipV>) {
    let p = spec_apply_from(inp, out, t.from, key);
    (spec_apply_to(p.0, t.to, key), p.1)
}

/// Every transaction processed, in order.
pub open spec fn spec_apply_txs(
    inp: Seq<SlipV>,
    out: Seq<SlipV>,
    ts: Seq<TxV>,
    key: Seq<u8>,
) -> (Seq<SlipV>, Seq<SlipV>)
    decreases ts.len(),
{
    if ts.len() == 0 {
        (inp, out)
    } else {
        let p = spec_apply_txs(inp, out, ts.drop_last(), key);
        spec_apply_tx(p.0, p.1, ts.last(), key)
    }
}

/// One past the greedy cover: the least `k > i` with the first `k`
/// amounts summing above `amount`, or `-1` if even the whole list does
/// not.
pub open spec fn spec_cover_at(s: Seq<SlipV>, amount: int, i: int) -> int
    decreases s.len() - i,
{
    if i < 0 || i >= s.len() {
        -1
    } else if spec_sum_amounts(s.take(i + 1)) > amount {
        i + 1
    } else {
        spec_cover_at(s, amount, i + 1)
    }
}

/// What a successful cover means: the covering prefix exceeds `amount`
/// and the one before it did not.
pub proof fn lemma_cover_at_props(s: Seq<SlipV>, amount: int, i: int)
    requires
        0 <= i <= s.len(),
    ensures
        spec_cover_at(s, amount, i) != -1 ==> i < spec_cover_at(s, amount, i) <= s.len()
            && spec_sum_amounts(s.take(spec_cover_at(s, amount, i))) > amount && (spec_cover_at(
            s,
            amount,
            i,
        ) > i + 1 ==> spec_sum_amounts(s.take(spec_cover_at(s, amount, i) - 1)) <= amount),
    decreases s.len() - i,
{
    if i < s.len() {
        lemma_cover_at_props(s, amount, i + 1);
    }
}

/// Finds the first slip whose index is `key`.
fn find_slip_index(v: &Vec<Slip>, key: &Vec<u8>) -> (r: Option<usize>)
    ensures
        match r {
            Some(i) => i < v@.len() && spec_find_at(v@.map_values(|s: Slip| s@), key@, 0)
                == i as int,
            None => spec_find_at(v@.map_values(|s: Slip| s@), key@, 0) == -1,
        },
{
    let ghost sv = v@.map_values(|s: Slip| s@);
    let n = v.len();
    let mut i: usize = 0;
    while i < n
        invariant
            n == v@.len(),
            sv == v@.map_values(|s: Slip| s@),
            i <= n,
            spec_find_at(sv, key@, 0) == spec_find_at(sv, key@, i as int),
        decreases n - i,
    {
        let idx = v[i].return_index();
        proof {
            assert(v@[i as int]@ == sv[i as int]);
        }
        if bytes::bytes_eq(&idx, key) {
            return Some(i);
        }
        i = i + 1;
    }
    None
}

/// Inserts a slip keyed by its index, replacing any slip that shares it.
fn upsert_slip(v: &mut Vec<Slip>, s: Slip)
    ensures
        final(v)@.map_values(|x: Slip| x@) == spec_upsert(old(v)@.map_values(|x: Slip| x@), s@),
{
    let idx = s.return_index();
    let ghost sv = v@.map_values(|x: Slip| x@);
    match find_slip_index(v, &idx) {
        Some(i) => {
            v.set(i, s);
            assert(v@.map_values(|x: Slip| x@) =~= sv.update(
                spec_find_at(sv, codec::spec_enc_slip(s@), 0),
                s@,
            ));
        },
        None => {
            let ghost vold = v@;
            v.push(s);
            proof {
                vold.lemma_push_map_commute(|x: Slip| x@, s);
            }
        },
    }
}

/// Removes the slip whose index is `key`, if present.
fn remove_slip(v: &mut Vec<Slip>, key: &Vec<u8>)
    ensures
        final(v)@.map_values(|x: Slip| x@) == spec_remove_slip(
            old(v)@.map_values(|x: Slip| x@),
            key@,
        ),
{
    let ghost sv = v@.map_values(|x: Slip| x@);
    match find_slip_index(v, key) {
        Some(i) => {
            v.remove(i);
            assert(v@.map_values(|x: Slip| x@) =~= sv.remove(spec_find_at(sv, key@, 0)));
        },
        None => {},
    }
}

impl Wallet {
    /// A wallet with a freshly generated keypair and no slips.
    pub fn new() -> (r: Wallet)
        ensures
            r@.publickey.len() == 33,
            r@.privatekey.len() == 32,
            crypto::is_valid_secret_key(r@.privatekey),
            r@.inputs == Seq::<SlipV>::empty(),
            r@.outputs == Seq::<SlipV>::empty(),
    {
        let (secret_key, public_key) = helper::generate_keys();
        let r = Wallet {
            publickey: public_key,
            privatekey: secret_key,
            inputs: Vec::new(),
            outputs: Vec::new(),
        };
        assert(r@.inputs =~= Seq::<SlipV>::empty());
        assert(r@.outputs =~= Seq::<SlipV>::empty());
        r
    }

    /// A copy of the owner's public key.
    pub fn return_publickey(&self) -> (r: Vec<u8>)
        ensures
            r@ == self@.publickey,
    {
        bytes::clone_bytes(&self.publickey)
    }

    /// Signs the SHA-256 digest of `data` with the wallet's secret key;
    /// empty if the stored key is not a valid secret key (a generated
    /// wallet's always is).
    pub fn create_signature(&self, data: &Vec<u8>) -> (r: Vec<u8>)
        ensures
            crypto::is_valid_secret_key(self@.privatekey) ==> r@ == crypto::ecdsa_signature_of(
                crypto::sha256_of(data@),
                self@.privatekey,
            ) && r@.len() == 64,
            !crypto::is_valid_secret_key(self@.privatekey) ==> r@.len() == 0,
    {
        let digest = crypto::sha256(data);
        match crypto::ecdsa_sign_digest(&digest, &self.privatekey) {
            Some(sig) => sig,
            None => Vec::new(),
        }
    }

    /// The owner's public key in base58.
    pub fn return_base58(&self) -> (r: String)
        requires
            self@.publickey.len() <= 128,
        ensures
            r@ == crypto::base58_of(self@.publickey),
    {
        crypto::base58_encode(&self.publickey)
    }

    /// Registers a spendable slip, keyed by its index.
    pub fn add_input(&mut self, input: Slip)
        ensures
            final(self)@ == (WalletV {
                inputs: spec_upsert(old(self)@.inputs, input@),
                ..old(self)@
            }),
    {
        upsert_slip(&mut self.inputs, input);
    }

    /// Records a spent slip, keyed by its index.
    pub fn add_output(&mut self, output: Slip)
        ensures
            final(self)@ == (WalletV {
                outputs: spec_upsert(old(self)@.outputs, output@),
                ..old(self)@
            }),
    {
        upsert_slip(&mut self.outputs, output);
    }

    /// Replays confirmed transactions into the wallet: every input slip
    /// the owner spent moves from `inputs` to `outputs`, and every output
    /// slip the owner received joins `inputs`, in order.
    pub fn process_payment(&mut self, transactions: Vec<Transaction>)
        ensures
            final(self)@ == (WalletV {
                inputs: spec_apply_txs(
                    old(self)@.inputs,
                    old(self)@.outputs,
                    transactions@.map_values(|t: Transaction| t@),
                    old(self)@.publickey,
                ).0,
                outputs: spec_apply_txs(
                    old(self)@.inputs,
                    old(self)@.outputs,
                    transactions@.map_values(|t: Transaction| t@),
                    old(self)@.publickey,
                ).1,
                ..old(self)@
            }),
    {
        let ghost ts = transactions@.map_values(|t: Transaction| t@);
        let ghost inp0 = self@.inputs;
        let ghost out0 = self@.outputs;
        let ghost key = self@.publickey;
        let n = transactions.len();
        let mut k: usize = 0;
        proof {
            assert(ts.take(0) =~= Seq::<TxV>::empty());
        }
        while k < n
            invariant
                n == transactions@.len(),
                ts == transactions@.map_values(|t: Transaction| t@),
                k <= n,
                self@.publickey == key,
                self@.privatekey == old(self)@.privatekey,
                inp0 == old(self)@.inputs,
                out0 == old(self)@.outputs,
                key == old(self)@.publickey,
                self@.inputs == spec_apply_txs(inp0, out0, ts.take(k as int), key).0,
                self@.outputs == spec_apply_txs(inp0, out0, ts.take(k as int), key).1,
            decreases n - k,
        {
            let ghost inp_k = self@.inputs;
            let ghost out_k = self@.outputs;
            let tx = &transactions[k];
            proof {
                assert(tx@ == ts[k as int]);
            }
            let nf = tx.from.len();
            let mut j: usize = 0;
            proof {
                assert(tx@.from.take(0) =~= Seq::<SlipV>::empty());
            }
            while j < nf
                invariant
                    nf == tx.from@.len(),
                    tx@ == ts[k as int],
                    j <= nf,
                    self@.publickey == key,
                    self@.privatekey == old(self)@.privatekey,
                    self@.inputs == spec_apply_from(inp_k, out_k, tx@.from.take(j as int), key).0,
                    self@.outputs == spec_apply_from(inp_k, out_k, tx@.from.take(j as int), key).1,
                decreases nf - j,
            {
                let slip = &tx.from[j];
                proof {
                    assert(slip@ == tx@.from[j as int]);
                    assert(tx@.from.take(j + 1).drop_last() =~= tx@.from.take(j as int));
                    assert(tx@.from.take(j + 1).last() == tx@.from[j as int]);
                }
                if bytes::bytes_eq(&slip.address, &self.publickey) {
                    let idx = slip.return_index();
                    remove_slip(&mut self.inputs, &idx);
                    let c = slip.clone();
                    upsert_slip(&mut self.outputs, c);
                }
                j = j + 1;
            }
            proof {
                assert(tx@.from.take(nf as int) =~= tx@.from);
            }
            let ghost inp_f = self@.inputs;
            let nt = tx.to.len();
            let mut m: usize = 0;
            proof {
                assert(tx@.to.take(0) =~= Seq::<SlipV>::empty());
            }
            while m < nt
                invariant
                    nt == tx.to@.len(),
                    tx@ == ts[k as int],
                    m <= nt,
                    self@.publickey == key,
                    self@.privatekey == old(self)@.privatekey,
                    inp_f == spec_apply_from(inp_k, out_k, tx@.from, key).0,
                    self@.outputs == spec_apply_from(inp_k, out_k, tx@.from, key).1,
                    self@.inputs == spec_apply_to(inp_f, tx@.to.take(m as int), key),
                decreases nt - m,
            {
                let slip = &tx.to[m];
                proof {
                    assert(slip@ == tx@.to[m as int]);
                    assert(tx@.to.take(m + 1).drop_last() =~= tx@.to.take(m as int));
                    assert(tx@.to.take(m + 1).last() == tx@.to[m as int]);
                }
                if bytes::bytes_eq(&slip.address, &self.publickey) {
                    let c = slip.clone();
                    upsert_slip(&mut self.inputs, c);
                }
                m = m + 1;
            }
            proof {
                assert(tx@.to.take(nt as int) =~= tx@.to);
                assert(ts.take(k + 1).drop_last() =~= ts.take(k as int));
                assert(ts.take(k + 1).last() == ts[k as int]);
            }
            k = k + 1;
        }
        proof {
            assert(ts.take(n as int) =~= ts);
        }
    }

    /// The total value currently spendable.
    pub fn return_balance(&self) -> (r: i128)
        ensures
            r == spec_sum_amounts(self@.inputs),
    {
        sum_slip_amounts(&self.inputs)
    }

    /// Greedily selects owned slips, in order, until their sum exceeds
    /// `amount`; nothing if the whole balance cannot.
    pub fn return_available_inputs(&self, amount: i64) -> (r: Option<Vec<Slip>>)
        ensures
            spec_cover_at(self@.inputs, amount as int, 0) == -1 ==> r is None,
            spec_cover_at(self@.inputs, amount as int, 0) != -1 ==> (r matches Some(v)
                && v@.map_values(|s: Slip| s@) == self@.inputs.take(
                spec_cover_at(self@.inputs, amount as int, 0),
            )),
    {
        let ghost sv = self@.inputs;
        let n = self.inputs.len();
        let mut slip_vec: Vec<Slip> = Vec::new();
        let mut slip_sum: i128 = 0;
        let mut i: usize = 0;
        while i < n
            invariant
                n == self.inputs@.len(),
                sv == self@.inputs,
                i <= n,
                slip_sum == spec_sum_amounts(sv.take(i as int)),
                slip_vec@.map_values(|s: Slip| s@) == sv.take(i as int),
                spec_cover_at(sv, amount as int, 0) == spec_cover_at(sv, amount as int, i as int),
            decreases n - i,
        {
            let slip = &self.inputs[i];
            proof {
                assert(slip@ == sv[i as int]);
                assert(sv.take(i + 1).drop_last() =~= sv.take(i as int));
                assert(sv.take(i + 1).last() == sv[i as int]);
                crate::transaction::lemma_sum_amounts_fits(sv.take(i + 1));
            }
            let c = slip.clone();
            let ghost vold = slip_vec@;
            slip_vec.push(c);
            proof {
                vold.lemma_push_map_commute(|s: Slip| s@, c);
                assert(slip_vec@.map_values(|s: Slip| s@) =~= sv.take(i + 1));
            }
            slip_sum = slip_sum + slip.amount as i128;
            if slip_sum > amount as i128 {
                return Some(slip_vec);
            }
            i = i + 1;
        }
        None
    }

    /// Drafts a spend: enough owned slips to cover `fee + amt`, one
    /// output of `fee + amt` to the recipient, and the change back to the
    /// owner; nothing if the balance cannot cover it.
    pub fn create_transaction(
        &self,
        publickey: Vec<u8>,
        tx_type: TransactionType,
        fee: i64,
        amt: i64,
    ) -> (r: Option<Transaction>)
        requires
            0 <= fee,
            0 <= amt,
            fee + amt <= i64::MAX,
        ensures
            spec_cover_at(self@.inputs, fee + amt, 0) == -1 ==> r is None,
            spec_cover_at(self@.inputs, fee + amt, 0) != -1 ==> (r matches Some(tx) && {
                let k = spec_cover_at(self@.inputs, fee + amt, 0);
                &&& tx@.tx_type == tx_type
                &&& tx@.id == 0
                &&& tx@.from == self@.inputs.take(k)
                &&& tx@.to.len() == 2
                &&& tx@.to[0].address == publickey@
                &&& tx@.to[0].amount == fee + amt
                &&& tx@.to[1].address == self@.publickey
                &&& tx@.to[1].amount == spec_sum_amounts(self@.inputs.take(k)) - fee - amt
                &&& tx@.msg == Seq::<u8>::empty()
            }),
    {
        let total = fee + amt;
        let ghost k = spec_cover_at(self@.inputs, fee + amt, 0);
        match self.return_available_inputs(total) {
            Some(slips) => {
                let n_inputs = self.inputs.len();
                proof {
                    assert(self@.inputs.len() == n_inputs);
                    lemma_cover_at_props(self@.inputs, fee + amt, 0);
                    assert(self@.inputs.take(k).drop_last() =~= self@.inputs.take(k - 1));
                    crate::transaction::lemma_sum_amounts_fits(self@.inputs.take(k));
                    crate::transaction::lemma_sum_amounts_fits(self@.inputs.take(k - 1));
                }
                let from_amt: i128 = sum_slip_amounts(&slips);
                let to_recover: i128 = from_amt - total as i128;
                proof {
                    assert(spec_sum_amounts(self@.inputs.take(k)) == spec_sum_amounts(
                        self@.inputs.take(k - 1),
                    ) + self@.inputs.take(k).last().amount);
                    assert(to_recover <= i64::MAX);
                    assert(to_recover > 0);
                }
                let mut to_slip = Slip::new(publickey);
                to_slip.amount = total;
                let mut change_slip = Slip::new(self.return_publickey());
                change_slip.amount = to_recover as i64;
                let mut tx = Transaction::new(tx_type);
                tx.from = slips;
                tx.add_to_slip(to_slip);
                tx.add_to_slip(change_slip);
                proof {
                    assert(tx@.from =~= self@.inputs.take(k));
                    assert(tx@.to[0].amount == fee + amt);
                }
                Some(tx)
            },
            None => None,
        }
    }

    /// A golden-ticket transaction with a single zeroed input slip bound
    /// to the owner.
    pub fn create_empty_golden_ticket(&self) -> (r: Transaction)
        ensures
            r@.tx_type == TransactionType::GoldenTicket,
            r@.id == 0,
            r@.from.len() == 1,
            r@.from[0].address == self@.publickey,
            r@.from[0].amount == 0,
            r@.from[0].block_id == 0,
            r@.from[0].transaction_id == 0,
            r@.from[0].id == 0,
            r@.from[0].block_hash == Seq::<u8>::empty(),
            r@.to == Seq::<SlipV>::empty(),
    {
        let mut tx = Transaction::new(TransactionType::GoldenTicket);
        let s = Slip::new(self.return_publickey());
        tx.add_from_slip(s);
        tx
    }
}

} // verus!

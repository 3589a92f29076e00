//! Transactions: ordered input and output slips with a payload and a
//! signature over the canonical signature source.

use vstd::prelude::*;
use crate::bytes;
use crate::codec;
use crate::helper;
use crate::slip::{Slip, SlipV};

verus! {

/// The closed set of transaction kinds.
#[derive(Clone, Copy, PartialEq, Eq, Structural, Debug)]
pub enum TransactionType {
    Base,
    GoldenTicket,
    Fee,
    Rebroadcast,
    VIP,
    GoldenChunk,
}

/// An ordered collection of input (`from`) and output (`to`) slips, plus
/// an opaque payload and a signature.
#[derive(Debug, PartialEq)]
pub struct Transaction {
    pub id: u32,
    pub tx_type: TransactionType,
    pub timestamp: u128,
    pub sig: Vec<u8>,
    pub to: Vec<Slip>,
    pub from: Vec<Slip>,
    pub msg: Vec<u8>,
}

/// The mathematical image of a [`Transaction`].
pub ghost struct TxV {
    pub id: u32,
    pub tx_type: TransactionType,
    pub timestamp: u128,
    pub sig: Seq<u8>,
    pub to: Seq<SlipV>,
    pub from: Seq<SlipV>,
    pub msg: Seq<u8>,
}

impl View for Transaction {
    type V = TxV;

    open spec fn view(&self) -> TxV {
        TxV {
            id: self.id,
            tx_type: self.tx_type,
            timestamp: self.timestamp,
            sig: self.sig@,
            to: self.to@.map_values(|s: Slip| s@),
            from: self.from@.map_values(|s: Slip| s@),
            msg: self.msg@,
        }
    }
}

/// The sum of the slips' amounts.
pub open spec fn spec_sum_amounts(s: Seq<SlipV>) -> int
    decreases s.len(),
{
    if s.len() == 0 {
        0
    } else {
        spec_sum_amounts(s.drop_last()) + s.last().amount
    }
}

/// The sum of the amounts of the slips owned by `key`.
pub open spec fn spec_sum_owned(s: Seq<SlipV>, key: Seq<u8>) -> int
    decreases s.len(),
{
    if s.len() == 0 {
        0
    } else {
        spec_sum_owned(s.drop_last(), key) + if s.last().address == key {
            s.last().amount as int
        } else {
            0
        }
    }
}

/// A sum of `i64` amounts is bounded by the number of slips.
pub proof fn lemma_sum_amounts_bounds(s: Seq<SlipV>)
    ensures
        -(s.len() as int) * 0x8000_0000_0000_0000 <= spec_sum_amounts(s),
        spec_sum_amounts(s) <= (s.len() as int) * 0x7fff_ffff_ffff_ffff,
    decreases s.len(),
{
    if s.len() == 0 {
    } else {
        lemma_sum_amounts_bounds(s.drop_last());
        let n = s.len() as int;
        assert((n - 1) * 0x8000_0000_0000_0000 + 0x8000_0000_0000_0000 == n
            * 0x8000_0000_0000_0000) by (nonlinear_arith);
        assert((n - 1) * 0x7fff_ffff_ffff_ffff + 0x7fff_ffff_ffff_ffff == n
            * 0x7fff_ffff_ffff_ffff) by (nonlinear_arith);
    }
}

/// A filtered sum of `i64` amounts is bounded by the number of slips.
pub proof fn lemma_sum_owned_bounds(s: Seq<SlipV>, key: Seq<u8>)
    ensures
        -(s.len() as int) * 0x8000_0000_0000_0000 <= spec_sum_owned(s, key),
        spec_sum_owned(s, key) <= (s.len() as int) * 0x7fff_ffff_ffff_ffff,
    decreases s.len(),
{
    if s.len() == 0 {
    } else {
        lemma_sum_owned_bounds(s.drop_last(), key);
        let n = s.len() as int;
        assert((n - 1) * 0x8000_0000_0000_0000 + 0x8000_0000_0000_0000 == n
            * 0x8000_0000_0000_0000) by (nonlinear_arith);
        assert((n - 1) * 0x7fff_ffff_ffff_ffff + 0x7fff_ffff_ffff_ffff == n
            * 0x7fff_ffff_ffff_ffff) by (nonlinear_arith);
    }
}

/// A filtered sum respects a common bound on the amounts.
pub proof fn lemma_sum_owned_bounded_by(s: Seq<SlipV>, key: Seq<u8>, m: int)
    requires
        0 <= m,
        forall|i: int| 0 <= i < s.len() ==> -m <= #[trigger] s[i].amount <= m,
    ensures
        -(s.len() as int) * m <= spec_sum_owned(s, key),
        spec_sum_owned(s, key) <= (s.len() as int) * m,
    decreases s.len(),
{
    if s.len() == 0 {
    } else {
        assert(forall|i: int|
            0 <= i < s.drop_last().len() ==> -m <= #[trigger] s.drop_last()[i].amount <= m);
        lemma_sum_owned_bounded_by(s.drop_last(), key, m);
        let n = s.len() as int;
        assert(s[n - 1].amount == s.last().amount);
        assert((n - 1) * m + m == n * m) by (nonlinear_arith);
        assert((-(n - 1)) * m - m == (-n) * m) by (nonlinear_arith);
        assert((-(n - 1)) * m == -((n - 1) * m)) by (nonlinear_arith);
        assert((-n) * m == -(n * m)) by (nonlinear_arith);
    }
}

/// A sum over at most `2^64` slips stays inside `i128`.
pub proof fn lemma_sum_amounts_fits(s: Seq<SlipV>)
    requires
        s.len() <= 0x1_0000_0000_0000_0000,
    ensures
        i128::MIN <= spec_sum_amounts(s) <= i128::MAX,
{
    lemma_sum_amounts_bounds(s);
    let n = s.len() as int;
    assert(n * 0x8000_0000_0000_0000 <= 0x1_0000_0000_0000_0000 * 0x8000_0000_0000_0000)
        by (nonlinear_arith)
        requires
            0 <= n <= 0x1_0000_0000_0000_0000,
    ;
    assert(n * 0x7fff_ffff_ffff_ffff <= 0x1_0000_0000_0000_0000 * 0x7fff_ffff_ffff_ffff)
        by (nonlinear_arith)
        requires
            0 <= n <= 0x1_0000_0000_0000_0000,
    ;
}

/// A filtered sum over at most `2^62` slips stays well inside `i128`.
pub proof fn lemma_sum_owned_fits(s: Seq<SlipV>, key: Seq<u8>)
    requires
        s.len() <= 0x4000_0000_0000_0000,
    ensures
        -0x2000_0000_0000_0000_0000_0000_0000_0000 <= spec_sum_owned(s, key)
            <= 0x2000_0000_0000_0000_0000_0000_0000_0000,
{
    lemma_sum_owned_bounds(s, key);
    let n = s.len() as int;
    assert(n * 0x8000_0000_0000_0000 <= 0x4000_0000_0000_0000 * 0x8000_0000_0000_0000)
        by (nonlinear_arith)
        requires
            0 <= n <= 0x4000_0000_0000_0000,
    ;
    assert(n * 0x7fff_ffff_ffff_ffff <= 0x4000_0000_0000_0000 * 0x7fff_ffff_ffff_ffff)
        by (nonlinear_arith)
        requires
            0 <= n <= 0x4000_0000_0000_0000,
    ;
}

/// The consensus predicate on a single transaction: at least one input and
/// one output, no negative amount, and for kinds other than golden-ticket
/// and fee transactions the outputs must not exceed the inputs.
pub open spec fn spec_tx_valid(t: TxV) -> bool {
    &&& t.from.len() >= 1
    &&& t.to.len() >= 1
    &&& (forall|i: int| 0 <= i < t.from.len() ==> t.from[i].amount >= 0)
    &&& (forall|i: int| 0 <= i < t.to.len() ==> t.to[i].amount >= 0)
    &&& (t.tx_type == TransactionType::GoldenTicket || t.tx_type == TransactionType::Fee
        || spec_sum_amounts(t.to) <= spec_sum_amounts(t.from))
}

/// The concatenation of the slips' canonical encodings.
pub open spec fn spec_slip_indices_concat(s: Seq<SlipV>) -> Seq<u8>
    decreases s.len(),
{
    if s.len() == 0 {
        Seq::<u8>::empty()
    } else {
        spec_slip_indices_concat(s.drop_last()) + codec::spec_enc_slip(s.last())
    }
}

/// The bytes a transaction's signature covers: the timestamp followed by
/// every input slip index and every output slip index, in order.
pub open spec fn spec_sig_source(t: TxV) -> Seq<u8> {
    bytes::spec_u128_be(t.timestamp) + spec_slip_indices_concat(t.from) + spec_slip_indices_concat(
        t.to,
    )
}

/// Each transaction's signature-source bytes, in order.
pub open spec fn spec_sig_source_seq(ts: Seq<TxV>) -> Seq<Seq<u8>> {
    ts.map_values(|t: TxV| spec_sig_source(t))
}

/// Copies a slip vector; the views agree element for element.
pub fn clone_slips(v: &Vec<Slip>) -> (r: Vec<Slip>)
    ensures
        r@.map_values(|s: Slip| s@) == v@.map_values(|s: Slip| s@),
{
    let mut r: Vec<Slip> = Vec::new();
    let n = v.len();
    let mut i: usize = 0;
    while i < n
        invariant
            n == v@.len(),
            i <= n,
            r@.len() == i,
            forall|j: int| 0 <= j < i ==> r@[j]@ == v@[j]@,
        decreases n - i,
    {
        let c = v[i].clone();
        r.push(c);
        i = i + 1;
    }
    assert(r@.map_values(|s: Slip| s@) =~= v@.map_values(|s: Slip| s@));
    r
}

impl Clone for Transaction {
    /// A clone carries exactly the same field values.
    fn clone(&self) -> (r: Self)
        ensures
            r@ == self@,
    {
        let r = Transaction {
            id: self.id,
            tx_type: self.tx_type,
            timestamp: self.timestamp,
            sig: bytes::clone_bytes(&self.sig),
            to: clone_slips(&self.to),
            from: clone_slips(&self.from),
            msg: bytes::clone_bytes(&self.msg),
        };
        r
    }
}

impl Transaction {
    /// An empty transaction of the given kind, stamped with the current
    /// time and a zeroed placeholder signature.
    pub fn new(tx_type: TransactionType) -> (r: Transaction)
        ensures
            r@.id == 0,
            r@.tx_type == tx_type,
            r@.sig.len() == 64,
            forall|i: int| 0 <= i < 64 ==> r@.sig[i] == 0,
            r@.to == Seq::<SlipV>::empty(),
            r@.from == Seq::<SlipV>::empty(),
            r@.msg == Seq::<u8>::empty(),
    {
        let mut sig: Vec<u8> = Vec::new();
        let mut i: usize = 0;
        while i < 64
            invariant
                i <= 64,
                sig@.len() == i,
                forall|j: int| 0 <= j < i ==> sig@[j] == 0,
            decreases 64 - i,
        {
            sig.push(0);
            i = i + 1;
        }
        let r = Transaction {
            id: 0,
            timestamp: helper::time_since_unix_epoch(),
            tx_type,
            sig,
            to: Vec::new(),
            from: Vec::new(),
            msg: Vec::new(),
        };
        assert(r@.to =~= Seq::<SlipV>::empty());
        assert(r@.from =~= Seq::<SlipV>::empty());
        assert(r@.msg =~= Seq::<u8>::empty());
        r
    }

    /// Appends an output slip; no validation happens here.
    pub fn add_to_slip(&mut self, slip: Slip)
        ensures
            final(self)@ == (TxV { to: old(self)@.to.push(slip@), ..old(self)@ }),
    {
        self.to.push(slip);
        assert(self@.to =~= old(self)@.to.push(slip@));
    }

    /// Appends an input slip; no validation happens here.
    pub fn add_from_slip(&mut self, slip: Slip)
        ensures
            final(self)@ == (TxV { from: old(self)@.from.push(slip@), ..old(self)@ }),
    {
        self.from.push(slip);
        assert(self@.from =~= old(self)@.from.push(slip@));
    }

    /// The sum of the input slips' amounts.
    pub fn calculate_from_amount(&self) -> (r: i128)
        ensures
            r == spec_sum_amounts(self@.from),
    {
        sum_slip_amounts(&self.from)
    }

    /// The sum of the output slips' amounts.
    pub fn calculate_to_amount(&self) -> (r: i128)
        ensures
            r == spec_sum_amounts(self@.to),
    {
        sum_slip_amounts(&self.to)
    }

    /// The transaction-level consensus check, exactly
    /// [`spec_tx_valid`]: non-empty inputs and outputs, no negative
    /// amount, and balance for kinds that owe it.  The signature is not
    /// inspected here: producing it and checking it are left to the
    /// parties that exchange transactions.
    pub fn validate(&self) -> (r: bool)
        ensures
            r == spec_tx_valid(self@),
    {
        if self.from.len() < 1 {
            return false;
        }
        if self.to.len() < 1 {
            return false;
        }
        let nf = self.from.len();
        let mut i: usize = 0;
        while i < nf
            invariant
                nf == self.from@.len(),
                i <= nf,
                forall|j: int| 0 <= j < i ==> self@.from[j].amount >= 0,
            decreases nf - i,
        {
            if self.from[i].amount < 0 {
                assert(self@.from[i as int].amount < 0);
                return false;
            }
            i = i + 1;
        }
        let nt = self.to.len();
        let mut k: usize = 0;
        while k < nt
            invariant
                nt == self.to@.len(),
                k <= nt,
                forall|j: int| 0 <= j < k ==> self@.to[j].amount >= 0,
            decreases nt - k,
        {
            if self.to[k].amount < 0 {
                assert(self@.to[k as int].amount < 0);
                return false;
            }
            k = k + 1;
        }
        match self.tx_type {
            TransactionType::GoldenTicket => true,
            TransactionType::Fee => true,
            _ => {
                let total_from = self.calculate_from_amount();
                let total_to = self.calculate_to_amount();
                total_to <= total_from
            },
        }
    }

    /// The net value `key` contributes to this transaction: its input
    /// amounts minus its output amounts.
    pub fn return_fees_usable(&self, key: &Vec<u8>) -> (r: i128)
        requires
            self.from@.len() + self.to@.len() <= 0x4000_0000_0000_0000,
        ensures
            r == spec_sum_owned(self@.from, key@) - spec_sum_owned(self@.to, key@),
    {
        let input_fees = sum_owned_amounts(&self.from, key);
        let output_fees = sum_owned_amounts(&self.to, key);
        proof {
            lemma_sum_owned_fits(self@.from, key@);
            lemma_sum_owned_fits(self@.to, key@);
        }
        input_fees - output_fees
    }

    /// The bytes the signature covers: timestamp, then every input slip
    /// index, then every output slip index.
    pub fn return_signature_source(&self) -> (r: Vec<u8>)
        ensures
            r@ == spec_sig_source(self@),
    {
        let mut out: Vec<u8> = Vec::new();
        bytes::put_u128(&mut out, self.timestamp);
        append_slip_indices(&mut out, &self.from);
        append_slip_indices(&mut out, &self.to);
        assert(out@ =~= spec_sig_source(self@));
        out
    }
}

/// Appends each slip's canonical encoding in order.
pub(crate) fn append_slip_indices(out: &mut Vec<u8>, v: &Vec<Slip>)
    ensures
        final(out)@ == old(out)@ + spec_slip_indices_concat(v@.map_values(|s: Slip| s@)),
{
    let ghost sv = v@.map_values(|s: Slip| s@);
    let n = v.len();
    let mut i: usize = 0;
    while i < n
        invariant
            n == v@.len(),
            sv == v@.map_values(|s: Slip| s@),
            i <= n,
            out@ == old(out)@ + spec_slip_indices_concat(sv.take(i as int)),
        decreases n - i,
    {
        codec::encode_slip_into(out, &v[i]);
        assert(sv.take(i + 1).drop_last() =~= sv.take(i as int));
        assert(sv.take(i + 1).last() == sv[i as int]);
        assert(out@ =~= old(out)@ + spec_slip_indices_concat(sv.take(i + 1)));
        i = i + 1;
    }
    assert(sv.take(n as int) =~= sv);
}

/// Sums the amounts of a slip vector into an `i128`.
pub fn sum_slip_amounts(v: &Vec<Slip>) -> (r: i128)
    ensures
        r == spec_sum_amounts(v@.map_values(|s: Slip| s@)),
{
    let ghost sv = v@.map_values(|s: Slip| s@);
    let mut total: i128 = 0;
    let n = v.len();
    let mut i: usize = 0;
    while i < n
        invariant
            n == v@.len(),
            sv == v@.map_values(|s: Slip| s@),
            i <= n,
            total == spec_sum_amounts(sv.take(i as int)),
        decreases n - i,
    {
        proof {
            assert(sv.take(i + 1).drop_last() =~= sv.take(i as int));
            assert(sv.take(i + 1).last() == sv[i as int]);
            lemma_sum_amounts_fits(sv.take(i + 1));
        }
        total = total + v[i].amount as i128;
        i = i + 1;
    }
    assert(sv.take(n as int) =~= sv);
    total
}

/// Sums the amounts of the slips owned by `key` into an `i128`.
fn sum_owned_amounts(v: &Vec<Slip>, key: &Vec<u8>) -> (r: i128)
    ensures
        r == spec_sum_owned(v@.map_values(|s: Slip| s@), key@),
{
    let ghost sv = v@.map_values(|s: Slip| s@);
    let mut total: i128 = 0;
    let n = v.len();
    let mut i: usize = 0;
    while i < n
        invariant
            n == v@.len(),
            sv == v@.map_values(|s: Slip| s@),
            i <= n,
            total == spec_sum_owned(sv.take(i as int), key@),
        decreases n - i,
    {
        proof {
            assert(sv.take(i + 1).drop_last() =~= sv.take(i as int));
            assert(sv.take(i + 1).last() == sv[i as int]);
            lemma_sum_amounts_fits(sv.take(i + 1));
            lemma_sum_owned_bounds(sv.take(i + 1), key@);
            lemma_sum_owned_bounds(sv.take(i as int), key@);
            assert((i + 1) * 0x8000_0000_0000_0000 <= 0x1_0000_0000_0000_0000
                * 0x8000_0000_0000_0000) by (nonlinear_arith)
                requires
                    0 <= i + 1 <= 0x1_0000_0000_0000_0000,
            ;
            assert((i + 1) * 0x7fff_ffff_ffff_ffff <= 0x1_0000_0000_0000_0000
                * 0x7fff_ffff_ffff_ffff) by (nonlinear_arith)
                requires
                    0 <= i + 1 <= 0x1_0000_0000_0000_0000,
            ;
        }
        if bytes::bytes_eq(&v[i].address, key) {
            total = total + v[i].amount as i128;
        }
        i = i + 1;
    }
    assert(sv.take(n as int) =~= sv);
    total
}

} // verus!

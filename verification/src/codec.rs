//! The canonical byte format for slips, transactions and blocks.
//!
//! Variable-length fields carry a big-endian 8-byte length prefix; integers
//! are fixed-width big-endian.  What is written can be read back: the
//! decoders are proved to invert the encoders.

use vstd::prelude::*;
use crate::bytes;
use crate::slip::{Slip, SlipV};
use crate::transaction::{
    spec_slip_indices_concat, Transaction, TransactionType, TxV,
};

verus! {

/// A length-prefixed byte string.
pub open spec fn spec_enc_bytes(b: Seq<u8>) -> Seq<u8> {
    bytes::spec_u64_be(b.len() as u64) + b
}

/// The canonical encoding of a slip.
pub open spec fn spec_enc_slip(s: SlipV) -> Seq<u8> {
    spec_enc_bytes(s.address) + bytes::spec_i64_be(s.amount) + bytes::spec_u32_be(s.block_id)
        + bytes::spec_u32_be(s.transaction_id) + bytes::spec_u32_be(s.id) + spec_enc_bytes(
        s.block_hash,
    )
}

/// Decodes a `u32` at `pos`.
pub open spec fn spec_dec_u32(s: Seq<u8>, pos: int) -> Option<(u32, int)> {
    if 0 <= pos && pos + 4 <= s.len() {
        Some((bytes::spec_read_u32(s, pos), pos + 4))
    } else {
        None
    }
}

/// Decodes a `u64` at `pos`.
pub open spec fn spec_dec_u64(s: Seq<u8>, pos: int) -> Option<(u64, int)> {
    if 0 <= pos && pos + 8 <= s.len() {
        Some((bytes::spec_read_u64(s, pos), pos + 8))
    } else {
        None
    }
}

/// Decodes a `u128` at `pos`.
pub open spec fn spec_dec_u128(s: Seq<u8>, pos: int) -> Option<(u128, int)> {
    if 0 <= pos && pos + 16 <= s.len() {
        Some((bytes::spec_read_u128(s, pos), pos + 16))
    } else {
        None
    }
}

/// Decodes an `i64` at `pos` through its two's-complement `u64` image.
pub open spec fn spec_dec_i64(s: Seq<u8>, pos: int) -> Option<(i64, int)> {
    match spec_dec_u64(s, pos) {
        Some((x, p)) => Some((x as i64, p)),
        None => None,
    }
}

/// Decodes a length-prefixed byte string at `pos`.
pub open spec fn spec_dec_bytes(s: Seq<u8>, pos: int) -> Option<(Seq<u8>, int)> {
    match spec_dec_u64(s, pos) {
        Some((n, p)) => if p + n <= s.len() {
            Some((s.subrange(p, p + n), p + n))
        } else {
            None
        },
        None => None,
    }
}

/// Decodes a slip at `pos`.
pub open spec fn spec_dec_slip(s: Seq<u8>, pos: int) -> Option<(SlipV, int)> {
    match spec_dec_bytes(s, pos) {
        Some((address, p1)) => match spec_dec_i64(s, p1) {
            Some((amount, p2)) => match spec_dec_u32(s, p2) {
                Some((block_id, p3)) => match spec_dec_u32(s, p3) {
                    Some((transaction_id, p4)) => match spec_dec_u32(s, p4) {
                        Some((id, p5)) => match spec_dec_bytes(s, p5) {
                            Some((block_hash, p6)) => Some(
                                (
                                    SlipV {
                                        address,
                                        amount,
                                        block_id,
                                        transaction_id,
                                        id,
                                        block_hash,
                                    },
                                    p6,
                                ),
                            ),
                            None => None,
                        },
                        None => None,
                    },
                    None => None,
                },
                None => None,
            },
            None => None,
        },
        None => None,
    }
}

/// A slice of `s` that matches a slice of `whole` placed at `pos`.
pub proof fn lemma_extract(s: Seq<u8>, pos: int, whole: Seq<u8>, off: int, part: Seq<u8>)
    requires
        0 <= pos,
        pos + whole.len() <= s.len(),
        s.subrange(pos, pos + whole.len()) == whole,
        0 <= off,
        off + part.len() <= whole.len(),
        whole.subrange(off, off + part.len()) == part,
    ensures
        s.subrange(pos + off, pos + off + part.len()) == part,
{
    assert forall|i: int| 0 <= i < part.len() implies #[trigger] s.subrange(
        pos + off,
        pos + off + part.len(),
    )[i] == part[i] by {
        assert(s.subrange(pos + off, pos + off + part.len())[i] == s[pos + off + i]);
        assert(s.subrange(pos, pos + whole.len())[off + i] == s[pos + off + i]);
        assert(whole.subrange(off, off + part.len())[i] == whole[off + i]);
    }
    assert(s.subrange(pos + off, pos + off + part.len()) =~= part);
}

/// A well-placed `u32` encoding decodes to the value written.
pub proof fn lemma_dec_u32_at(s: Seq<u8>, pos: int, x: u32)
    requires
        0 <= pos,
        pos + 4 <= s.len(),
        s.subrange(pos, pos + 4) == bytes::spec_u32_be(x),
    ensures
        spec_dec_u32(s, pos) == Some((x, pos + 4)),
{
    bytes::lemma_u32_be_read(s, pos, x);
}

/// A well-placed `u128` encoding decodes to the value written.
pub proof fn lemma_dec_u128_at(s: Seq<u8>, pos: int, x: u128)
    requires
        0 <= pos,
        pos + 16 <= s.len(),
        s.subrange(pos, pos + 16) == bytes::spec_u128_be(x),
    ensures
        spec_dec_u128(s, pos) == Some((x, pos + 16)),
{
    bytes::lemma_u128_be_read(s, pos, x);
}

/// A well-placed `i64` encoding decodes to the value written.
pub proof fn lemma_dec_i64_at(s: Seq<u8>, pos: int, x: i64)
    requires
        0 <= pos,
        pos + 8 <= s.len(),
        s.subrange(pos, pos + 8) == bytes::spec_i64_be(x),
    ensures
        spec_dec_i64(s, pos) == Some((x, pos + 8)),
{
    bytes::lemma_u64_be_read(s, pos, x as u64);
    bytes::lemma_i64_u64_round_trip(x);
}

/// A well-placed length-prefixed byte string decodes to the bytes written.
pub proof fn lemma_dec_bytes_at(s: Seq<u8>, pos: int, b: Seq<u8>)
    requires
        0 <= pos,
        b.len() <= u64::MAX,
        pos + 8 + b.len() <= s.len(),
        s.subrange(pos, pos + 8 + b.len()) == spec_enc_bytes(b),
    ensures
        spec_dec_bytes(s, pos) == Some((b, pos + 8 + b.len())),
{
    let e = spec_enc_bytes(b);
    let n = b.len() as u64;
    assert(e.subrange(0, 8) =~= bytes::spec_u64_be(n));
    lemma_extract(s, pos, e, 0, bytes::spec_u64_be(n));
    bytes::lemma_u64_be_read(s, pos, n);
    assert(e.subrange(8, 8 + b.len() as int) =~= b);
    lemma_extract(s, pos, e, 8, b);
    assert(spec_dec_u64(s, pos) == Some((n, pos + 8)));
    assert(s.subrange(pos + 8, pos + 8 + n) == b);
}

/// A well-placed slip encoding decodes to the slip written.
pub proof fn lemma_dec_slip_at(s: Seq<u8>, pos: int, v: SlipV)
    requires
        0 <= pos,
        v.address.len() <= u64::MAX,
        v.block_hash.len() <= u64::MAX,
        pos + spec_enc_slip(v).len() <= s.len(),
        s.subrange(pos, pos + spec_enc_slip(v).len()) == spec_enc_slip(v),
    ensures
        spec_dec_slip(s, pos) == Some((v, pos + spec_enc_slip(v).len())),
{
    let w = spec_enc_slip(v);
    let la = 8 + v.address.len() as int;
    let lh = 8 + v.block_hash.len() as int;
    let ea = spec_enc_bytes(v.address);
    let eh = spec_enc_bytes(v.block_hash);

    assert(w.subrange(0, la) =~= ea);
    lemma_extract(s, pos, w, 0, ea);
    lemma_dec_bytes_at(s, pos, v.address);

    assert(w.subrange(la, la + 8) =~= bytes::spec_i64_be(v.amount));
    lemma_extract(s, pos, w, la, bytes::spec_i64_be(v.amount));
    lemma_dec_i64_at(s, pos + la, v.amount);

    assert(w.subrange(la + 8, la + 12) =~= bytes::spec_u32_be(v.block_id));
    lemma_extract(s, pos, w, la + 8, bytes::spec_u32_be(v.block_id));
    lemma_dec_u32_at(s, pos + la + 8, v.block_id);

    assert(w.subrange(la + 12, la + 16) =~= bytes::spec_u32_be(v.transaction_id));
    lemma_extract(s, pos, w, la + 12, bytes::spec_u32_be(v.transaction_id));
    lemma_dec_u32_at(s, pos + la + 12, v.transaction_id);

    assert(w.subrange(la + 16, la + 20) =~= bytes::spec_u32_be(v.id));
    lemma_extract(s, pos, w, la + 16, bytes::spec_u32_be(v.id));
    lemma_dec_u32_at(s, pos + la + 16, v.id);

    assert(w.subrange(la + 20, la + 20 + lh) =~= eh);
    lemma_extract(s, pos, w, la + 20, eh);
    lemma_dec_bytes_at(s, pos + la + 20, v.block_hash);
}

/// Appends the length-prefixed bytes of `b`.
pub fn encode_bytes_into(out: &mut Vec<u8>, b: &Vec<u8>)
    ensures
        final(out)@ == old(out)@ + spec_enc_bytes(b@),
{
    bytes::put_u64(out, b.len() as u64);
    bytes::put_bytes(out, b);
    assert(out@ =~= old(out)@ + spec_enc_bytes(b@));
}

/// Appends the canonical encoding of `s`.
pub fn encode_slip_into(out: &mut Vec<u8>, s: &Slip)
    ensures
        final(out)@ == old(out)@ + spec_enc_slip(s@),
{
    encode_bytes_into(out, &s.address);
    bytes::put_i64(out, s.amount);
    bytes::put_u32(out, s.block_id);
    bytes::put_u32(out, s.transaction_id);
    bytes::put_u32(out, s.id);
    encode_bytes_into(out, &s.block_hash);
    assert(out@ =~= old(out)@ + spec_enc_slip(s@));
}

/// Reads a `u32` at `pos`, if four bytes are available.
pub fn decode_u32(b: &Vec<u8>, pos: usize) -> (r: Option<(u32, usize)>)
    ensures
        match r {
            Some(p) => spec_dec_u32(b@, pos as int) == Some((p.0, p.1 as int)),
            None => spec_dec_u32(b@, pos as int) is None,
        },
{
    let n = b.len();
    if pos <= n && n - pos >= 4 {
        Some((bytes::get_u32(b, pos), pos + 4))
    } else {
        None
    }
}

/// Reads a `u64` at `pos`, if eight bytes are available.
pub fn decode_u64(b: &Vec<u8>, pos: usize) -> (r: Option<(u64, usize)>)
    ensures
        match r {
            Some(p) => spec_dec_u64(b@, pos as int) == Some((p.0, p.1 as int)),
            None => spec_dec_u64(b@, pos as int) is None,
        },
{
    let n = b.len();
    if pos <= n && n - pos >= 8 {
        Some((bytes::get_u64(b, pos), pos + 8))
    } else {
        None
    }
}

/// Reads a `u128` at `pos`, if sixteen bytes are available.
pub fn decode_u128(b: &Vec<u8>, pos: usize) -> (r: Option<(u128, usize)>)
    ensures
        match r {
            Some(p) => spec_dec_u128(b@, pos as int) == Some((p.0, p.1 as int)),
            None => spec_dec_u128(b@, pos as int) is None,
        },
{
    let n = b.len();
    if pos <= n && n - pos >= 16 {
        Some((bytes::get_u128(b, pos), pos + 16))
    } else {
        None
    }
}

/// Reads an `i64` at `pos`, if eight bytes are available.
pub fn decode_i64(b: &Vec<u8>, pos: usize) -> (r: Option<(i64, usize)>)
    ensures
        match r {
            Some(p) => spec_dec_i64(b@, pos as int) == Some((p.0, p.1 as int)),
            None => spec_dec_i64(b@, pos as int) is None,
        },
{
    match decode_u64(b, pos) {
        Some((x, p)) => Some((x as i64, p)),
        None => None,
    }
}

/// Reads a length-prefixed byte string at `pos`.
pub fn decode_bytes(b: &Vec<u8>, pos: usize) -> (r: Option<(Vec<u8>, usize)>)
    ensures
        match r {
            Some(p) => spec_dec_bytes(b@, pos as int) == Some((p.0@, p.1 as int)),
            None => spec_dec_bytes(b@, pos as int) is None,
        },
{
    let n = b.len();
    match decode_u64(b, pos) {
        Some((len64, p)) => {
            if len64 <= (n - p) as u64 {
                let count = len64 as usize;
                let v = bytes::get_slice(b, p, count);
                Some((v, p + count))
            } else {
                None
            }
        },
        None => None,
    }
}

/// Reads a slip at `pos`.
pub fn decode_slip(b: &Vec<u8>, pos: usize) -> (r: Option<(Slip, usize)>)
    ensures
        match r {
            Some(p) => spec_dec_slip(b@, pos as int) == Some((p.0@, p.1 as int)),
            None => spec_dec_slip(b@, pos as int) is None,
        },
{
    let (address, p1) = match decode_bytes(b, pos) {
        Some(x) => x,
        None => {
            return None;
        },
    };
    let (amount, p2) = match decode_i64(b, p1) {
        Some(x) => x,
        None => {
            return None;
        },
    };
    let (block_id, p3) = match decode_u32(b, p2) {
        Some(x) => x,
        None => {
            return None;
        },
    };
    let (transaction_id, p4) = match decode_u32(b, p3) {
        Some(x) => x,
        None => {
            return None;
        },
    };
    let (id, p5) = match decode_u32(b, p4) {
        Some(x) => x,
        None => {
            return None;
        },
    };
    let (block_hash, p6) = match decode_bytes(b, p5) {
        Some(x) => x,
        None => {
            return None;
        },
    };
    Some((Slip { address, amount, block_id, transaction_id, id, block_hash }, p6))
}

/// The slip encoding is injective: the index is a faithful key for a
/// slip, so two slips that share an index share every field.
pub proof fn lemma_enc_slip_injective(a: SlipV, b: SlipV)
    requires
        a.address.len() <= u64::MAX,
        a.block_hash.len() <= u64::MAX,
        b.address.len() <= u64::MAX,
        b.block_hash.len() <= u64::MAX,
        spec_enc_slip(a) == spec_enc_slip(b),
    ensures
        a == b,
{
    let s = spec_enc_slip(a);
    assert(s.subrange(0, s.len() as int) =~= s);
    lemma_dec_slip_at(s, 0, a);
    lemma_dec_slip_at(s, 0, b);
}

/// The byte tag of a transaction kind.
pub open spec fn spec_tx_type_tag(t: TransactionType) -> u8 {
    match t {
        TransactionType::Base => 0,
        TransactionType::GoldenTicket => 1,
        TransactionType::Fee => 2,
        TransactionType::Rebroadcast => 3,
        TransactionType::VIP => 4,
        TransactionType::GoldenChunk => 5,
    }
}

/// The transaction kind a byte tag denotes, if any.
pub open spec fn spec_tag_type(x: u8) -> Option<TransactionType> {
    if x == 0 {
        Some(TransactionType::Base)
    } else if x == 1 {
        Some(TransactionType::GoldenTicket)
    } else if x == 2 {
        Some(TransactionType::Fee)
    } else if x == 3 {
        Some(TransactionType::Rebroadcast)
    } else if x == 4 {
        Some(TransactionType::VIP)
    } else if x == 5 {
        Some(TransactionType::GoldenChunk)
    } else {
        None
    }
}

/// Reading a kind's tag back yields the kind.
pub proof fn lemma_tag_round_trip(t: TransactionType)
    ensures
        spec_tag_type(spec_tx_type_tag(t)) == Some(t),
{
    match t {
        TransactionType::Base => {},
        TransactionType::GoldenTicket => {},
        TransactionType::Fee => {},
        TransactionType::Rebroadcast => {},
        TransactionType::VIP => {},
        TransactionType::GoldenChunk => {},
    }
}

/// A length-prefixed slip list.
pub open spec fn spec_enc_slips(s: Seq<SlipV>) -> Seq<u8> {
    bytes::spec_u64_be(s.len() as u64) + spec_slip_indices_concat(s)
}

/// The canonical encoding of a transaction.
pub open spec fn spec_enc_tx(t: TxV) -> Seq<u8> {
    bytes::spec_u32_be(t.id) + seq![spec_tx_type_tag(t.tx_type)] + bytes::spec_u128_be(t.timestamp)
        + spec_enc_bytes(t.sig) + spec_enc_slips(t.from) + spec_enc_slips(t.to) + spec_enc_bytes(
        t.msg,
    )
}

/// The concatenation of the transactions' encodings.
pub open spec fn spec_txs_concat(ts: Seq<TxV>) -> Seq<u8>
    decreases ts.len(),
{
    if ts.len() == 0 {
        Seq::<u8>::empty()
    } else {
        spec_txs_concat(ts.drop_last()) + spec_enc_tx(ts.last())
    }
}

/// A length-prefixed transaction list.
pub open spec fn spec_enc_txs(ts: Seq<TxV>) -> Seq<u8> {
    bytes::spec_u64_be(ts.len() as u64) + spec_txs_concat(ts)
}

/// The leading block fields: id, linkage hashes, timestamp and creator.
pub open spec fn spec_enc_block_head(b: crate::block::BlockV) -> Seq<u8> {
    bytes::spec_u32_be(b.id) + spec_enc_bytes(b.previous_hash) + spec_enc_bytes(b.merkle_root)
        + bytes::spec_u128_be(b.timestamp) + spec_enc_bytes(b.creator)
}

/// The trailing block fields: the economic parameters.
pub open spec fn spec_enc_block_tail(b: crate::block::BlockV) -> Seq<u8> {
    bytes::spec_u32_be(b.difficulty) + bytes::spec_u32_be(b.paysplit) + bytes::spec_u64_be(
        b.treasury,
    ) + bytes::spec_u64_be(b.coinbase) + bytes::spec_u64_be(b.reclaimed)
}

/// The canonical encoding of a block.
pub open spec fn spec_enc_block(b: crate::block::BlockV) -> Seq<u8> {
    spec_enc_block_head(b) + spec_enc_txs(b.transactions) + spec_enc_block_tail(b)
}

/// Decodes one byte at `pos`.
pub open spec fn spec_dec_u8(s: Seq<u8>, pos: int) -> Option<(u8, int)> {
    if 0 <= pos && pos + 1 <= s.len() {
        Some((s[pos], pos + 1))
    } else {
        None
    }
}

/// Decodes `n` slips in sequence at `pos`.
pub open spec fn spec_dec_slips(s: Seq<u8>, pos: int, n: u64) -> Option<(Seq<SlipV>, int)>
    decreases n,
{
    if n == 0 {
        Some((Seq::<SlipV>::empty(), pos))
    } else {
        match spec_dec_slip(s, pos) {
            Some((v, p)) => match spec_dec_slips(s, p, (n - 1) as u64) {
                Some((vs, p2)) => Some((seq![v] + vs, p2)),
                None => None,
            },
            None => None,
        }
    }
}

/// Decodes a length-prefixed slip list at `pos`.
pub open spec fn spec_dec_slips_field(s: Seq<u8>, pos: int) -> Option<(Seq<SlipV>, int)> {
    match spec_dec_u64(s, pos) {
        Some((n, p)) => spec_dec_slips(s, p, n),
        None => None,
    }
}

/// Decodes a transaction at `pos`.
pub open spec fn spec_dec_tx(s: Seq<u8>, pos: int) -> Option<(TxV, int)> {
    match spec_dec_u32(s, pos) {
        Some((id, p1)) => match spec_dec_u8(s, p1) {
            Some((tag, p2)) => match spec_tag_type(tag) {
                Some(tx_type) => match spec_dec_u128(s, p2) {
                    Some((timestamp, p3)) => match spec_dec_bytes(s, p3) {
                        Some((sig, p4)) => match spec_dec_slips_field(s, p4) {
                            Some((from, p5)) => match spec_dec_slips_field(s, p5) {
                                Some((to, p6)) => match spec_dec_bytes(s, p6) {
                                    Some((msg, p7)) => Some(
                                        (TxV { id, tx_type, timestamp, sig, to, from, msg }, p7),
                                    ),
                                    None => None,
                                },
                                None => None,
                            },
                            None => None,
                        },
                        None => None,
                    },
                    None => None,
                },
                None => None,
            },
            None => None,
        },
        None => None,
    }
}

/// Decodes `n` transactions in sequence at `pos`.
pub open spec fn spec_dec_txs(s: Seq<u8>, pos: int, n: u64) -> Option<(Seq<TxV>, int)>
    decreases n,
{
    if n == 0 {
        Some((Seq::<TxV>::empty(), pos))
    } else {
        match spec_dec_tx(s, pos) {
            Some((t, p)) => match spec_dec_txs(s, p, (n - 1) as u64) {
                Some((ts, p2)) => Some((seq![t] + ts, p2)),
                None => None,
            },
            None => None,
        }
    }
}

/// Decodes a length-prefixed transaction list at `pos`.
pub open spec fn spec_dec_txs_field(s: Seq<u8>, pos: int) -> Option<(Seq<TxV>, int)> {
    match spec_dec_u64(s, pos) {
        Some((n, p)) => spec_dec_txs(s, p, n),
        None => None,
    }
}

/// Decodes a block at `pos`.
pub open spec fn spec_dec_block(s: Seq<u8>, pos: int) -> Option<(crate::block::BlockV, int)> {
    match spec_dec_u32(s, pos) {
        Some((id, p1)) => match spec_dec_bytes(s, p1) {
            Some((previous_hash, p2)) => match spec_dec_bytes(s, p2) {
                Some((merkle_root, p3)) => match spec_dec_u128(s, p3) {
                    Some((timestamp, p4)) => match spec_dec_bytes(s, p4) {
                        Some((creator, p5)) => match spec_dec_txs_field(s, p5) {
                            Some((transactions, p6)) => match spec_dec_u32(s, p6) {
                                Some((difficulty, p7)) => match spec_dec_u32(s, p7) {
                                    Some((paysplit, p8)) => match spec_dec_u64(s, p8) {
                                        Some((treasury, p9)) => match spec_dec_u64(s, p9) {
                                            Some((coinbase, p10)) => match spec_dec_u64(s, p10) {
                                                Some((reclaimed, p11)) => Some(
                                                    (
                                                        crate::block::BlockV {
                                                            id,
                                                            previous_hash,
                                                            merkle_root,
                                                            timestamp,
                                                            creator,
                                                            transactions,
                                                            difficulty,
                                                            paysplit,
                                                            treasury,
                                                            coinbase,
                                                            reclaimed,
                                                        },
                                                        p11,
                                                    ),
                                                ),
                                                None => None,
                                            },
                                            None => None,
                                        },
                                        None => None,
                                    },
                                    None => None,
                                },
                                None => None,
                            },
                            None => None,
                        },
                        None => None,
                    },
                    None => None,
                },
                None => None,
            },
            None => None,
        },
        None => None,
    }
}

/// A slip whose variable-length fields the length prefixes can describe.
pub open spec fn spec_slip_enc_wf(v: SlipV) -> bool {
    v.address.len() <= u64::MAX && v.block_hash.len() <= u64::MAX
}

/// A slip list the codec can describe.
pub open spec fn spec_slips_enc_wf(s: Seq<SlipV>) -> bool {
    s.len() <= u64::MAX && forall|i: int| 0 <= i < s.len() ==> spec_slip_enc_wf(#[trigger] s[i])
}

/// A transaction the codec can describe.
pub open spec fn spec_tx_enc_wf(t: TxV) -> bool {
    &&& t.sig.len() <= u64::MAX
    &&& t.msg.len() <= u64::MAX
    &&& spec_slips_enc_wf(t.from)
    &&& spec_slips_enc_wf(t.to)
}

/// A block the codec can describe.
pub open spec fn spec_block_enc_wf(b: crate::block::BlockV) -> bool {
    &&& b.previous_hash.len() <= u64::MAX
    &&& b.merkle_root.len() <= u64::MAX
    &&& b.creator.len() <= u64::MAX
    &&& b.transactions.len() <= u64::MAX
    &&& forall|i: int|
        0 <= i < b.transactions.len() ==> spec_tx_enc_wf(#[trigger] b.transactions[i])
}

/// A well-placed single byte decodes to the byte written.
pub proof fn lemma_dec_u8_at(s: Seq<u8>, pos: int, x: u8)
    requires
        0 <= pos,
        pos + 1 <= s.len(),
        s.subrange(pos, pos + 1) == seq![x],
    ensures
        spec_dec_u8(s, pos) == Some((x, pos + 1)),
{
    assert(s.subrange(pos, pos + 1)[0] == s[pos]);
}

/// A nonempty slip list's concatenation starts with its first slip.
pub proof fn lemma_slip_concat_first(vs: Seq<SlipV>)
    requires
        vs.len() > 0,
    ensures
        spec_slip_indices_concat(vs) == spec_enc_slip(vs.first()) + spec_slip_indices_concat(
            vs.drop_first(),
        ),
    decreases vs.len(),
{
    if vs.len() == 1 {
        assert(vs.drop_last() =~= Seq::<SlipV>::empty());
        assert(vs.drop_first() =~= Seq::<SlipV>::empty());
        assert(vs.last() == vs.first());
        assert(spec_slip_indices_concat(vs) =~= spec_enc_slip(vs.first())
            + spec_slip_indices_concat(vs.drop_first()));
    } else {
        lemma_slip_concat_first(vs.drop_last());
        assert(vs.drop_last().first() == vs.first());
        assert(vs.drop_last().drop_first() =~= vs.drop_first().drop_last());
        assert(vs.drop_first().last() == vs.last());
        assert(spec_slip_indices_concat(vs) =~= spec_enc_slip(vs.first())
            + spec_slip_indices_concat(vs.drop_first()));
    }
}

/// A well-placed slip concatenation decodes to the slips written.
pub proof fn lemma_dec_slips_at(s: Seq<u8>, pos: int, vs: Seq<SlipV>)
    requires
        0 <= pos,
        spec_slips_enc_wf(vs),
        pos + spec_slip_indices_concat(vs).len() <= s.len(),
        s.subrange(pos, pos + spec_slip_indices_concat(vs).len()) == spec_slip_indices_concat(vs),
    ensures
        spec_dec_slips(s, pos, vs.len() as u64) == Some(
            (vs, pos + spec_slip_indices_concat(vs).len()),
        ),
    decreases vs.len(),
{
    if vs.len() == 0 {
        assert(vs =~= Seq::<SlipV>::empty());
    } else {
        let w = spec_slip_indices_concat(vs);
        let first = vs.first();
        let rest = vs.drop_first();
        let a = spec_enc_slip(first);
        let brest = spec_slip_indices_concat(rest);
        lemma_slip_concat_first(vs);
        assert(w.subrange(0, a.len() as int) =~= a);
        lemma_extract(s, pos, w, 0, a);
        lemma_dec_slip_at(s, pos, first);
        assert(w.subrange(a.len() as int, a.len() + brest.len() as int) =~= brest);
        lemma_extract(s, pos, w, a.len() as int, brest);
        lemma_dec_slips_at(s, pos + a.len(), rest);
        assert((vs.len() as u64 - 1) as u64 == rest.len() as u64);
        assert(seq![first] + rest =~= vs);
    }
}

/// A well-placed length-prefixed slip list decodes to the slips written.
pub proof fn lemma_dec_slips_field_at(s: Seq<u8>, pos: int, vs: Seq<SlipV>)
    requires
        0 <= pos,
        spec_slips_enc_wf(vs),
        pos + spec_enc_slips(vs).len() <= s.len(),
        s.subrange(pos, pos + spec_enc_slips(vs).len()) == spec_enc_slips(vs),
    ensures
        spec_dec_slips_field(s, pos) == Some((vs, pos + spec_enc_slips(vs).len())),
{
    let w = spec_enc_slips(vs);
    let n = vs.len() as u64;
    assert(w.subrange(0, 8) =~= bytes::spec_u64_be(n));
    lemma_extract(s, pos, w, 0, bytes::spec_u64_be(n));
    bytes::lemma_u64_be_read(s, pos, n);
    let c = spec_slip_indices_concat(vs);
    assert(w.subrange(8, 8 + c.len() as int) =~= c);
    lemma_extract(s, pos, w, 8, c);
    lemma_dec_slips_at(s, pos + 8, vs);
}

/// A well-placed transaction encoding decodes to the transaction
/// written.
#[verifier::rlimit(100)]
pub proof fn lemma_dec_tx_at(s: Seq<u8>, pos: int, t: TxV)
    requires
        0 <= pos,
        spec_tx_enc_wf(t),
        pos + spec_enc_tx(t).len() <= s.len(),
        s.subrange(pos, pos + spec_enc_tx(t).len()) == spec_enc_tx(t),
    ensures
        spec_dec_tx(s, pos) == Some((t, pos + spec_enc_tx(t).len())),
{
    let w = spec_enc_tx(t);
    let ls = 8 + t.sig.len() as int;
    let lf = spec_enc_slips(t.from).len() as int;
    let lt = spec_enc_slips(t.to).len() as int;
    let lm = 8 + t.msg.len() as int;

    assert(w.subrange(0, 4) =~= bytes::spec_u32_be(t.id));
    lemma_extract(s, pos, w, 0, bytes::spec_u32_be(t.id));
    lemma_dec_u32_at(s, pos, t.id);

    assert(w.subrange(4, 5) =~= seq![spec_tx_type_tag(t.tx_type)]);
    lemma_extract(s, pos, w, 4, seq![spec_tx_type_tag(t.tx_type)]);
    lemma_dec_u8_at(s, pos + 4, spec_tx_type_tag(t.tx_type));
    lemma_tag_round_trip(t.tx_type);

    assert(w.subrange(5, 21) =~= bytes::spec_u128_be(t.timestamp));
    lemma_extract(s, pos, w, 5, bytes::spec_u128_be(t.timestamp));
    lemma_dec_u128_at(s, pos + 5, t.timestamp);

    assert(w.subrange(21, 21 + ls) =~= spec_enc_bytes(t.sig));
    lemma_extract(s, pos, w, 21, spec_enc_bytes(t.sig));
    lemma_dec_bytes_at(s, pos + 21, t.sig);

    assert(w.subrange(21 + ls, 21 + ls + lf) =~= spec_enc_slips(t.from));
    lemma_extract(s, pos, w, 21 + ls, spec_enc_slips(t.from));
    lemma_dec_slips_field_at(s, pos + 21 + ls, t.from);

    assert(w.subrange(21 + ls + lf, 21 + ls + lf + lt) =~= spec_enc_slips(t.to));
    lemma_extract(s, pos, w, 21 + ls + lf, spec_enc_slips(t.to));
    lemma_dec_slips_field_at(s, pos + 21 + ls + lf, t.to);

    assert(w.subrange(21 + ls + lf + lt, 21 + ls + lf + lt + lm) =~= spec_enc_bytes(t.msg));
    lemma_extract(s, pos, w, 21 + ls + lf + lt, spec_enc_bytes(t.msg));
    lemma_dec_bytes_at(s, pos + 21 + ls + lf + lt, t.msg);
}

/// A nonempty transaction list's concatenation starts with its first
/// transaction.
pub proof fn lemma_txs_concat_first(ts: Seq<TxV>)
    requires
        ts.len() > 0,
    ensures
        spec_txs_concat(ts) == spec_enc_tx(ts.first()) + spec_txs_concat(ts.drop_first()),
    decreases ts.len(),
{
    if ts.len() == 1 {
        assert(ts.drop_last() =~= Seq::<TxV>::empty());
        assert(ts.drop_first() =~= Seq::<TxV>::empty());
        assert(ts.last() == ts.first());
        assert(spec_txs_concat(ts) =~= spec_enc_tx(ts.first()) + spec_txs_concat(ts.drop_first()));
    } else {
        lemma_txs_concat_first(ts.drop_last());
        assert(ts.drop_last().first() == ts.first());
        assert(ts.drop_last().drop_first() =~= ts.drop_first().drop_last());
        assert(ts.drop_first().last() == ts.last());
        assert(spec_txs_concat(ts) =~= spec_enc_tx(ts.first()) + spec_txs_concat(ts.drop_first()));
    }
}

/// A well-placed transaction concatenation decodes to the transactions
/// written.
#[verifier::rlimit(100)]
pub proof fn lemma_dec_txs_at(s: Seq<u8>, pos: int, ts: Seq<TxV>)
    requires
        0 <= pos,
        ts.len() <= u64::MAX,
        forall|i: int| 0 <= i < ts.len() ==> spec_tx_enc_wf(#[trigger] ts[i]),
        pos + spec_txs_concat(ts).len() <= s.len(),
        s.subrange(pos, pos + spec_txs_concat(ts).len()) == spec_txs_concat(ts),
    ensures
        spec_dec_txs(s, pos, ts.len() as u64) == Some((ts, pos + spec_txs_concat(ts).len())),
    decreases ts.len(),
{
    if ts.len() == 0 {
        assert(ts =~= Seq::<TxV>::empty());
    } else {
        let w = spec_txs_concat(ts);
        let first = ts.first();
        let rest = ts.drop_first();
        let a = spec_enc_tx(first);
        let brest = spec_txs_concat(rest);
        lemma_txs_concat_first(ts);
        assert(w.subrange(0, a.len() as int) =~= a);
        lemma_extract(s, pos, w, 0, a);
        lemma_dec_tx_at(s, pos, first);
        assert(w.subrange(a.len() as int, a.len() + brest.len() as int) =~= brest);
        lemma_extract(s, pos, w, a.len() as int, brest);
        lemma_dec_txs_at(s, pos + a.len(), rest);
        assert((ts.len() as u64 - 1) as u64 == rest.len() as u64);
        assert(seq![first] + rest =~= ts);
    }
}

/// A well-placed block head decodes field by field to the values
/// written.
#[verifier::rlimit(100)]
pub proof fn lemma_dec_block_head_at(s: Seq<u8>, pos: int, b: crate::block::BlockV)
    requires
        0 <= pos,
        b.previous_hash.len() <= u64::MAX,
        b.merkle_root.len() <= u64::MAX,
        b.creator.len() <= u64::MAX,
        pos + spec_enc_block_head(b).len() <= s.len(),
        s.subrange(pos, pos + spec_enc_block_head(b).len()) == spec_enc_block_head(b),
    ensures
        spec_dec_u32(s, pos) == Some((b.id, pos + 4)),
        spec_dec_bytes(s, pos + 4) == Some(
            (b.previous_hash, pos + 12 + b.previous_hash.len()),
        ),
        spec_dec_bytes(s, pos + 12 + b.previous_hash.len()) == Some(
            (b.merkle_root, pos + 20 + b.previous_hash.len() + b.merkle_root.len()),
        ),
        spec_dec_u128(s, pos + 20 + b.previous_hash.len() + b.merkle_root.len()) == Some(
            (b.timestamp, pos + 36 + b.previous_hash.len() + b.merkle_root.len()),
        ),
        spec_dec_bytes(s, pos + 36 + b.previous_hash.len() + b.merkle_root.len()) == Some(
            (
                b.creator,
                pos + 44 + b.previous_hash.len() + b.merkle_root.len() + b.creator.len(),
            ),
        ),
        pos + spec_enc_block_head(b).len() == pos + 44 + b.previous_hash.len()
            + b.merkle_root.len() + b.creator.len(),
{
    let w = spec_enc_block_head(b);
    let lp = 8 + b.previous_hash.len() as int;
    let lm = 8 + b.merkle_root.len() as int;
    let lc = 8 + b.creator.len() as int;

    assert(w.subrange(0, 4) =~= bytes::spec_u32_be(b.id));
    lemma_extract(s, pos, w, 0, bytes::spec_u32_be(b.id));
    lemma_dec_u32_at(s, pos, b.id);

    assert(w.subrange(4, 4 + lp) =~= spec_enc_bytes(b.previous_hash));
    lemma_extract(s, pos, w, 4, spec_enc_bytes(b.previous_hash));
    lemma_dec_bytes_at(s, pos + 4, b.previous_hash);

    assert(w.subrange(4 + lp, 4 + lp + lm) =~= spec_enc_bytes(b.merkle_root));
    lemma_extract(s, pos, w, 4 + lp, spec_enc_bytes(b.merkle_root));
    lemma_dec_bytes_at(s, pos + 4 + lp, b.merkle_root);

    assert(w.subrange(4 + lp + lm, 20 + lp + lm) =~= bytes::spec_u128_be(b.timestamp));
    lemma_extract(s, pos, w, 4 + lp + lm, bytes::spec_u128_be(b.timestamp));
    lemma_dec_u128_at(s, pos + 4 + lp + lm, b.timestamp);

    assert(w.subrange(20 + lp + lm, 20 + lp + lm + lc) =~= spec_enc_bytes(b.creator));
    lemma_extract(s, pos, w, 20 + lp + lm, spec_enc_bytes(b.creator));
    lemma_dec_bytes_at(s, pos + 20 + lp + lm, b.creator);
}

/// A well-placed block tail decodes field by field to the values
/// written.
#[verifier::rlimit(100)]
pub proof fn lemma_dec_block_tail_at(s: Seq<u8>, pos: int, b: crate::block::BlockV)
    requires
        0 <= pos,
        pos + 32 <= s.len(),
        s.subrange(pos, pos + 32) == spec_enc_block_tail(b),
    ensures
        spec_dec_u32(s, pos) == Some((b.difficulty, pos + 4)),
        spec_dec_u32(s, pos + 4) == Some((b.paysplit, pos + 8)),
        spec_dec_u64(s, pos + 8) == Some((b.treasury, pos + 16)),
        spec_dec_u64(s, pos + 16) == Some((b.coinbase, pos + 24)),
        spec_dec_u64(s, pos + 24) == Some((b.reclaimed, pos + 32)),
{
    let w = spec_enc_block_tail(b);

    assert(w.subrange(0, 4) =~= bytes::spec_u32_be(b.difficulty));
    lemma_extract(s, pos, w, 0, bytes::spec_u32_be(b.difficulty));
    lemma_dec_u32_at(s, pos, b.difficulty);

    assert(w.subrange(4, 8) =~= bytes::spec_u32_be(b.paysplit));
    lemma_extract(s, pos, w, 4, bytes::spec_u32_be(b.paysplit));
    lemma_dec_u32_at(s, pos + 4, b.paysplit);

    assert(w.subrange(8, 16) =~= bytes::spec_u64_be(b.treasury));
    lemma_extract(s, pos, w, 8, bytes::spec_u64_be(b.treasury));
    bytes::lemma_u64_be_read(s, pos + 8, b.treasury);

    assert(w.subrange(16, 24) =~= bytes::spec_u64_be(b.coinbase));
    lemma_extract(s, pos, w, 16, bytes::spec_u64_be(b.coinbase));
    bytes::lemma_u64_be_read(s, pos + 16, b.coinbase);

    assert(w.subrange(24, 32) =~= bytes::spec_u64_be(b.reclaimed));
    lemma_extract(s, pos, w, 24, bytes::spec_u64_be(b.reclaimed));
    bytes::lemma_u64_be_read(s, pos + 24, b.reclaimed);
}

/// A well-placed block encoding decodes to the block written.
#[verifier::rlimit(100)]
pub proof fn lemma_dec_block_at(s: Seq<u8>, pos: int, b: crate::block::BlockV)
    requires
        0 <= pos,
        spec_block_enc_wf(b),
        pos + spec_enc_block(b).len() <= s.len(),
        s.subrange(pos, pos + spec_enc_block(b).len()) == spec_enc_block(b),
    ensures
        spec_dec_block(s, pos) == Some((b, pos + spec_enc_block(b).len())),
{
    let w = spec_enc_block(b);
    let h = spec_enc_block_head(b);
    let x = spec_enc_txs(b.transactions);
    let t = spec_enc_block_tail(b);
    let hl = h.len() as int;
    let xl = x.len() as int;

    assert(w.subrange(0, hl) =~= h);
    lemma_extract(s, pos, w, 0, h);
    lemma_dec_block_head_at(s, pos, b);

    assert(w.subrange(hl, hl + xl) =~= x);
    lemma_extract(s, pos, w, hl, x);
    let px = pos + hl;
    assert(x.subrange(0, 8) =~= bytes::spec_u64_be(b.transactions.len() as u64));
    lemma_extract(s, px, x, 0, bytes::spec_u64_be(b.transactions.len() as u64));
    bytes::lemma_u64_be_read(s, px, b.transactions.len() as u64);
    let cx = spec_txs_concat(b.transactions);
    assert(x.subrange(8, 8 + cx.len() as int) =~= cx);
    lemma_extract(s, px, x, 8, cx);
    lemma_dec_txs_at(s, px + 8, b.transactions);

    assert(w.subrange(hl + xl, hl + xl + 32) =~= t);
    lemma_extract(s, pos, w, hl + xl, t);
    lemma_dec_block_tail_at(s, pos + hl + xl, b);
}

/// The round trip: decoding an encoded block yields the block again,
/// consuming exactly its bytes.
pub proof fn lemma_block_round_trip(b: crate::block::BlockV)
    requires
        spec_block_enc_wf(b),
    ensures
        spec_dec_block(spec_enc_block(b), 0) == Some((b, spec_enc_block(b).len() as int)),
{
    let s = spec_enc_block(b);
    assert(s.subrange(0, s.len() as int) =~= s);
    lemma_dec_block_at(s, 0, b);
}

/// Appends the length-prefixed encodings of the slips.
pub fn encode_slips_into(out: &mut Vec<u8>, v: &Vec<Slip>)
    ensures
        final(out)@ == old(out)@ + spec_enc_slips(v@.map_values(|s: Slip| s@)),
{
    bytes::put_u64(out, v.len() as u64);
    crate::transaction::append_slip_indices(out, v);
    assert(out@ =~= old(out)@ + spec_enc_slips(v@.map_values(|s: Slip| s@)));
}

/// Appends the canonical encoding of a transaction.
pub fn encode_tx_into(out: &mut Vec<u8>, t: &Transaction)
    ensures
        final(out)@ == old(out)@ + spec_enc_tx(t@),
{
    bytes::put_u32(out, t.id);
    let tag: u8 = match t.tx_type {
        TransactionType::Base => 0,
        TransactionType::GoldenTicket => 1,
        TransactionType::Fee => 2,
        TransactionType::Rebroadcast => 3,
        TransactionType::VIP => 4,
        TransactionType::GoldenChunk => 5,
    };
    out.push(tag);
    bytes::put_u128(out, t.timestamp);
    encode_bytes_into(out, &t.sig);
    encode_slips_into(out, &t.from);
    encode_slips_into(out, &t.to);
    encode_bytes_into(out, &t.msg);
    assert(out@ =~= old(out)@ + spec_enc_tx(t@));
}

/// The canonical encoding of a block.
pub fn encode_block(b: &crate::block::Block) -> (r: Vec<u8>)
    ensures
        r@ == spec_enc_block(b@),
{
    let mut out: Vec<u8> = Vec::new();
    bytes::put_u32(&mut out, b.id);
    encode_bytes_into(&mut out, &b.previous_hash);
    encode_bytes_into(&mut out, &b.merkle_root);
    bytes::put_u128(&mut out, b.timestamp);
    encode_bytes_into(&mut out, &b.creator);
    bytes::put_u64(&mut out, b.transactions.len() as u64);
    let ghost ts = b@.transactions;
    let n = b.transactions.len();
    let ghost mid = out@;
    let mut i: usize = 0;
    while i < n
        invariant
            n == b.transactions@.len(),
            ts == b@.transactions,
            i <= n,
            out@ == mid + spec_txs_concat(ts.take(i as int)),
        decreases n - i,
    {
        proof {
            assert(b.transactions@[i as int]@ == ts[i as int]);
        }
        encode_tx_into(&mut out, &b.transactions[i]);
        proof {
            assert(ts.take(i + 1).drop_last() =~= ts.take(i as int));
            assert(ts.take(i + 1).last() == ts[i as int]);
            assert(out@ =~= mid + spec_txs_concat(ts.take(i + 1)));
        }
        i = i + 1;
    }
    proof {
        assert(ts.take(n as int) =~= ts);
    }
    bytes::put_u32(&mut out, b.difficulty);
    bytes::put_u32(&mut out, b.paysplit);
    bytes::put_u64(&mut out, b.treasury);
    bytes::put_u64(&mut out, b.coinbase);
    bytes::put_u64(&mut out, b.reclaimed);
    assert(out@ =~= spec_enc_block(b@));
    out
}

/// Reads one byte at `pos`.
pub fn decode_u8(b: &Vec<u8>, pos: usize) -> (r: Option<(u8, usize)>)
    ensures
        match r {
            Some(p) => spec_dec_u8(b@, pos as int) == Some((p.0, p.1 as int)),
            None => spec_dec_u8(b@, pos as int) is None,
        },
{
    let n = b.len();
    if pos < n {
        Some((b[pos], pos + 1))
    } else {
        None
    }
}

/// Reads `n` slips in sequence at `pos`.
pub fn decode_slips(b: &Vec<u8>, pos: usize, n: u64) -> (r: Option<(Vec<Slip>, usize)>)
    ensures
        match r {
            Some(p) => spec_dec_slips(b@, pos as int, n) matches Some(q) && q.0
                == p.0@.map_values(|s: Slip| s@) && q.1 == p.1 as int,
            None => spec_dec_slips(b@, pos as int, n) is None,
        },
    decreases n,
{
    if n == 0 {
        let empty: Vec<Slip> = Vec::new();
        assert(empty@.map_values(|s: Slip| s@) =~= Seq::<SlipV>::empty());
        return Some((empty, pos));
    }
    match decode_slip(b, pos) {
        None => None,
        Some((v, p)) => {
            match decode_slips(b, p, n - 1) {
                None => None,
                Some((vs, p2)) => {
                    let mut vs2 = vs;
                    let ghost rest = vs2@.map_values(|s: Slip| s@);
                    vs2.insert(0, v);
                    assert(vs2@.map_values(|s: Slip| s@) =~= seq![v@] + rest);
                    Some((vs2, p2))
                },
            }
        },
    }
}

/// Reads a length-prefixed slip list at `pos`.
pub fn decode_slips_field(b: &Vec<u8>, pos: usize) -> (r: Option<(Vec<Slip>, usize)>)
    ensures
        match r {
            Some(p) => spec_dec_slips_field(b@, pos as int) matches Some(q) && q.0
                == p.0@.map_values(|s: Slip| s@) && q.1 == p.1 as int,
            None => spec_dec_slips_field(b@, pos as int) is None,
        },
{
    match decode_u64(b, pos) {
        None => None,
        Some((n, p)) => decode_slips(b, p, n),
    }
}

/// Reads a transaction at `pos`.
pub fn decode_transaction(b: &Vec<u8>, pos: usize) -> (r: Option<(Transaction, usize)>)
    ensures
        match r {
            Some(p) => spec_dec_tx(b@, pos as int) matches Some(q) && q.0 == p.0@ && q.1
                == p.1 as int,
            None => spec_dec_tx(b@, pos as int) is None,
        },
{
    let (id, p1) = match decode_u32(b, pos) {
        Some(x) => x,
        None => {
            return None;
        },
    };
    let (tag, p2) = match decode_u8(b, p1) {
        Some(x) => x,
        None => {
            return None;
        },
    };
    let tx_type = if tag == 0 {
        TransactionType::Base
    } else if tag == 1 {
        TransactionType::GoldenTicket
    } else if tag == 2 {
        TransactionType::Fee
    } else if tag == 3 {
        TransactionType::Rebroadcast
    } else if tag == 4 {
        TransactionType::VIP
    } else if tag == 5 {
        TransactionType::GoldenChunk
    } else {
        return None;
    };
    let (timestamp, p3) = match decode_u128(b, p2) {
        Some(x) => x,
        None => {
            return None;
        },
    };
    let (sig, p4) = match decode_bytes(b, p3) {
        Some(x) => x,
        None => {
            return None;
        },
    };
    let (from, p5) = match decode_slips_field(b, p4) {
        Some(x) => x,
        None => {
            return None;
        },
    };
    let (to, p6) = match decode_slips_field(b, p5) {
        Some(x) => x,
        None => {
            return None;
        },
    };
    let (msg, p7) = match decode_bytes(b, p6) {
        Some(x) => x,
        None => {
            return None;
        },
    };
    Some((Transaction { id, tx_type, timestamp, sig, to, from, msg }, p7))
}

/// Reads `n` transactions in sequence at `pos`.
pub fn decode_transactions(b: &Vec<u8>, pos: usize, n: u64) -> (r: Option<(Vec<Transaction>, usize)>)
    ensures
        match r {
            Some(p) => spec_dec_txs(b@, pos as int, n) matches Some(q) && q.0
                == p.0@.map_values(|t: Transaction| t@) && q.1 == p.1 as int,
            None => spec_dec_txs(b@, pos as int, n) is None,
        },
    decreases n,
{
    if n == 0 {
        let empty: Vec<Transaction> = Vec::new();
        assert(empty@.map_values(|t: Transaction| t@) =~= Seq::<TxV>::empty());
        return Some((empty, pos));
    }
    match decode_transaction(b, pos) {
        None => None,
        Some((t, p)) => {
            match decode_transactions(b, p, n - 1) {
                None => None,
                Some((ts, p2)) => {
                    let mut ts2 = ts;
                    let ghost rest = ts2@.map_values(|x: Transaction| x@);
                    ts2.insert(0, t);
                    assert(ts2@.map_values(|x: Transaction| x@) =~= seq![t@] + rest);
                    Some((ts2, p2))
                },
            }
        },
    }
}

/// Reads a whole block: the encoding must fill `bytes` exactly.
pub fn decode_block(bytes_in: &Vec<u8>) -> (r: Option<crate::block::Block>)
    ensures
        match r {
            Some(blk) => spec_dec_block(bytes_in@, 0) matches Some(q) && q.0 == blk@ && q.1
                == bytes_in@.len(),
            None => !(spec_dec_block(bytes_in@, 0) matches Some(q) && q.1 == bytes_in@.len()),
        },
{
    let (id, p1) = match decode_u32(bytes_in, 0) {
        Some(x) => x,
        None => {
            return None;
        },
    };
    let (previous_hash, p2) = match decode_bytes(bytes_in, p1) {
        Some(x) => x,
        None => {
            return None;
        },
    };
    let (merkle_root, p3) = match decode_bytes(bytes_in, p2) {
        Some(x) => x,
        None => {
            return None;
        },
    };
    let (timestamp, p4) = match decode_u128(bytes_in, p3) {
        Some(x) => x,
        None => {
            return None;
        },
    };
    let (creator, p5) = match decode_bytes(bytes_in, p4) {
        Some(x) => x,
        None => {
            return None;
        },
    };
    let (ntx, p5b) = match decode_u64(bytes_in, p5) {
        Some(x) => x,
        None => {
            return None;
        },
    };
    let (transactions, p6) = match decode_transactions(bytes_in, p5b, ntx) {
        Some(x) => x,
        None => {
            return None;
        },
    };
    let (difficulty, p7) = match decode_u32(bytes_in, p6) {
        Some(x) => x,
        None => {
            return None;
        },
    };
    let (paysplit, p8) = match decode_u32(bytes_in, p7) {
        Some(x) => x,
        None => {
            return None;
        },
    };
    let (treasury, p9) = match decode_u64(bytes_in, p8) {
        Some(x) => x,
        None => {
            return None;
        },
    };
    let (coinbase, p10) = match decode_u64(bytes_in, p9) {
        Some(x) => x,
        None => {
            return None;
        },
    };
    let (reclaimed, p11) = match decode_u64(bytes_in, p10) {
        Some(x) => x,
        None => {
            return None;
        },
    };
    if p11 != bytes_in.len() {
        return None;
    }
    Some(
        crate::block::Block {
            id,
            previous_hash,
            merkle_root,
            timestamp,
            creator,
            transactions,
            difficulty,
            paysplit,
            treasury,
            coinbase,
            reclaimed,
        },
    )
}

} // verus!

//! The slip: a reference to a discrete unit of transferable value.

use vstd::prelude::*;
use crate::bytes;
use crate::codec;

verus! {

/// A transaction output that later serves as an input.
///
/// `address` is the owner's compressed public key, `amount` the value it
/// carries, and the `(block_id, transaction_id, id)` triple its position
/// once a block has confirmed it.  `block_hash` stays empty until the
/// confirming block's hash is known.
#[derive(Debug, PartialEq)]
pub struct Slip {
    pub address: Vec<u8>,
    pub amount: i64,
    pub block_id: u32,
    pub transaction_id: u32,
    pub id: u32,
    pub block_hash: Vec<u8>,
}

/// The mathematical image of a [`Slip`].
pub ghost struct SlipV {
    pub address: Seq<u8>,
    pub amount: i64,
    pub block_id: u32,
    pub transaction_id: u32,
    pub id: u32,
    pub block_hash: Seq<u8>,
}

impl View for Slip {
    type V = SlipV;

    open spec fn view(&self) -> SlipV {
        SlipV {
            address: self.address@,
            amount: self.amount,
            block_id: self.block_id,
            transaction_id: self.transaction_id,
            id: self.id,
            block_hash: self.block_hash@,
        }
    }
}

impl Clone for Slip {
    /// A clone carries exactly the same field values.
    fn clone(&self) -> (r: Self)
        ensures
            r@ == self@,
    {
        Slip {
            address: bytes::clone_bytes(&self.address),
            amount: self.amount,
            block_id: self.block_id,
            transaction_id: self.transaction_id,
            id: self.id,
            block_hash: bytes::clone_bytes(&self.block_hash),
        }
    }
}

impl Slip {
    /// A zeroed slip bound to `publickey`.
    pub fn new(publickey: Vec<u8>) -> (r: Slip)
        ensures
            r@.address == publickey@,
            r@.amount == 0,
            r@.block_id == 0,
            r@.transaction_id == 0,
            r@.id == 0,
            r@.block_hash == Seq::<u8>::empty(),
    {
        let r = Slip {
            address: publickey,
            amount: 0,
            block_id: 0,
            transaction_id: 0,
            id: 0,
            block_hash: Vec::new(),
        };
        assert(r.block_hash@ =~= Seq::<u8>::empty());
        r
    }

    /// The slip's canonical byte encoding, used as the global key for
    /// spendability tracking.
    pub fn return_index(&self) -> (r: Vec<u8>)
        ensures
            r@ == codec::spec_enc_slip(self@),
    {
        let mut out: Vec<u8> = Vec::new();
        codec::encode_slip_into(&mut out, self);
        assert(out@ =~= codec::spec_enc_slip(self@));
        out
    }
}

} // verus!

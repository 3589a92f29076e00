//! The golden ticket: a record of a proof-of-work solution, with the
//! difficulty and paysplit votes it carries.

use vstd::prelude::*;
use crate::block::Block;

verus! {

/// A proof-of-work solution: the targeted block hash, the solver's vote
/// on difficulty and paysplit, the winning hash input, and the solver's
/// key.
#[derive(Debug)]
pub struct GoldenTicket {
    pub target: Vec<u8>,
    pub vote: u8,
    pub random: Vec<u8>,
    pub publickey: Vec<u8>,
}

impl GoldenTicket {
    /// The next difficulty, in hundredths of a leading hash byte: one
    /// step up on an approving vote, one step down otherwise.
    pub fn calculate_difficulty(&self, previous_block: &Block) -> (r: u32)
        requires
            1 <= previous_block@.difficulty < u32::MAX,
        ensures
            self.vote == 1 ==> r == previous_block@.difficulty + 1,
            self.vote != 1 ==> r == previous_block@.difficulty - 1,
    {
        match self.vote {
            1 => previous_block.difficulty + 1,
            _ => previous_block.difficulty - 1,
        }
    }

    /// The next paysplit, in hundredths: one step toward the miner on an
    /// approving vote, one step toward the node otherwise.
    pub fn calculate_paysplit(&self, previous_block: &Block) -> (r: u32)
        requires
            1 <= previous_block@.paysplit < u32::MAX,
        ensures
            self.vote == 1 ==> r == previous_block@.paysplit + 1,
            self.vote != 1 ==> r == previous_block@.paysplit - 1,
    {
        match self.vote {
            1 => previous_block.paysplit + 1,
            _ => previous_block.paysplit - 1,
        }
    }
}

} // verus!

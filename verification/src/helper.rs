//! Wall-clock access and key generation, plus the merkle-root entry point.

use vstd::prelude::*;
use crate::crypto;
use crate::transaction::Transaction;

verus! {

/// The wall clock, in milliseconds since the Unix epoch.
pub fn time_since_unix_epoch() -> u128 {
    crypto::system_time_millis()
}

/// A freshly generated keypair: the secret key bytes and the compressed
/// public key bytes.
pub fn generate_keys() -> (r: (Vec<u8>, Vec<u8>))
    ensures
        r.0@.len() == 32,
        r.1@.len() == 33,
        crypto::is_valid_secret_key(r.0@),
{
    crypto::generate_keypair_bytes()
}

/// The merkle root over the transactions' signature-source bytes.
pub fn create_merkle_root(transactions: Vec<Transaction>) -> (r: Vec<u8>)
    ensures
        r@ == crypto::merkle_root_of(crate::transaction::spec_sig_source_seq(
            transactions@.map_values(|t: Transaction| t@),
        )),
        r@.len() == 32,
{
    let mut leaves: Vec<Vec<u8>> = Vec::new();
    let n = transactions.len();
    let ghost txs = transactions@.map_values(|t: Transaction| t@);
    let mut i: usize = 0;
    while i < n
        invariant
            n == transactions@.len(),
            txs == transactions@.map_values(|t: Transaction| t@),
            i <= n,
            leaves@.len() == i,
            forall|j: int| 0 <= j < i ==> leaves@[j]@ == crate::transaction::spec_sig_source(
                txs[j],
            ),
        decreases n - i,
    {
        let leaf = transactions[i].return_signature_source();
        proof {
            assert(transactions@[i as int]@ == txs[i as int]);
        }
        leaves.push(leaf);
        i = i + 1;
    }
    assert(leaves@.map_values(|l: Vec<u8>| l@) =~= crate::transaction::spec_sig_source_seq(txs));
    crypto::merkle_root_bytes(leaves)
}

} // verus!

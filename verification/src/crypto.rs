//! Trusted wrappers around the cryptographic collaborators.
//!
//! Each wrapper names what it relies on; the results of the hash, merkle
//! and signature primitives are functions of their arguments alone and are
//! given uninterpreted names that the rest of the library reasons with.

use vstd::prelude::*;

verus! {

/// The SHA-256 digest of `data`.
pub uninterp spec fn sha256_of(data: Seq<u8>) -> Seq<u8>;

/// The merkle root over `leaves`, as the merkle crate computes it with
/// SHA-256.
pub uninterp spec fn merkle_root_of(leaves: Seq<Seq<u8>>) -> Seq<u8>;

/// Whether `secp256k1::SecretKey::from_secret_bytes` accepts these bytes
/// (32 bytes encoding a nonzero scalar below the curve order).
pub uninterp spec fn is_valid_secret_key(s: Seq<u8>) -> bool;

/// The compact ECDSA signature of the 32-byte `digest` under `secret`;
/// deterministic by RFC 6979 nonce generation.
pub uninterp spec fn ecdsa_signature_of(digest: Seq<u8>, secret: Seq<u8>) -> Seq<u8>;

/// The base58 rendering of `b`.
pub uninterp spec fn base58_of(b: Seq<u8>) -> Seq<char>;

/// Relies on `sha2::Sha256::digest`: a 32-byte digest that depends on the
/// input bytes alone.
#[verifier::external_body]
pub fn sha256(data: &Vec<u8>) -> (r: Vec<u8>)
    ensures
        r@ == sha256_of(data@),
        r@.len() == 32,
{
    let d = <sha2::Sha256 as sha2::Digest>::digest(data.as_slice());
    d.as_slice().to_vec()
}

/// Relies on `merkle::MerkleTree::from_vec` with `ring::digest::SHA256`
/// and `root_hash`: a 32-byte root that depends on the leaf bytes alone
/// (the empty leaf list yields the digest of the empty string).
#[verifier::external_body]
pub fn merkle_root_bytes(leaves: Vec<Vec<u8>>) -> (r: Vec<u8>)
    ensures
        r@ == merkle_root_of(leaves@.map_values(|l: Vec<u8>| l@)),
        r@.len() == 32,
{
    let tree = merkle::MerkleTree::from_vec(&ring::digest::SHA256, leaves);
    tree.root_hash().clone()
}

/// Relies on `secp256k1::SecretKey::from_secret_bytes`,
/// `SecretKey::sign_ecdsa` and `Signature::serialize_compact`: signing a
/// 32-byte digest under a valid secret key yields a 64-byte compact
/// signature that depends on digest and key alone.
#[verifier::external_body]
pub fn ecdsa_sign_digest(digest: &Vec<u8>, secret: &Vec<u8>) -> (r: Option<Vec<u8>>)
    ensures
        r is Some == (digest@.len() == 32 && is_valid_secret_key(secret@)),
        r matches Some(s) ==> s@ == ecdsa_signature_of(digest@, secret@) && s@.len() == 64,
{
    let d: [u8; 32] = match digest.as_slice().try_into() {
        Ok(a) => a,
        Err(_) => return None,
    };
    let arr: [u8; 32] = match secret.as_slice().try_into() {
        Ok(a) => a,
        Err(_) => return None,
    };
    let sk = match secp256k1::SecretKey::from_secret_bytes(arr) {
        Ok(k) => k,
        Err(_) => return None,
    };
    Some(sk.sign_ecdsa(secp256k1::Message::from_digest(d)).serialize_compact().to_vec())
}

/// Relies on `base58::ToBase58` for `[u8]`: an encoding that depends on
/// the input bytes alone; the implementation handles inputs up to 128
/// bytes.
#[verifier::external_body]
pub fn base58_encode(b: &Vec<u8>) -> (r: String)
    requires
        b@.len() <= 128,
    ensures
        r@ == base58_of(b@),
{
    base58::ToBase58::to_base58(b.as_slice())
}

/// Relies on `rand::random`: an arbitrary `u32`; nothing is promised of
/// the value.
#[verifier::external_body]
pub fn random_u32() -> u32 {
    rand::random::<u32>()
}

/// Relies on `std::time::SystemTime::now` and
/// `SystemTime::duration_since(UNIX_EPOCH)`: milliseconds since the Unix
/// epoch.  The clock is outside the model, so nothing is promised of the
/// value.
#[verifier::external_body]
pub fn system_time_millis() -> u128 {
    match std::time::SystemTime::now().duration_since(std::time::UNIX_EPOCH) {
        Ok(d) => d.as_millis(),
        Err(_) => 0,
    }
}

/// Relies on `secp256k1::generate_keypair`: a freshly drawn secret key is
/// accepted by `SecretKey::from_secret_bytes`, its serialization is 32
/// bytes, and the compressed public key serialization is 33 bytes.
#[verifier::external_body]
pub fn generate_keypair_bytes() -> (r: (Vec<u8>, Vec<u8>))
    ensures
        r.0@.len() == 32,
        r.1@.len() == 33,
        is_valid_secret_key(r.0@),
{
    let (sk, pk) = secp256k1::generate_keypair(&mut secp256k1::rand::rng());
    (sk.to_secret_bytes().to_vec(), pk.serialize().to_vec())
}

} // verus!

//! Encapsulation of a fresh symmetric key under the aggregated encryption key.
use crate::field::Fr;
use crate::group::{g1_generator_encoding, g1_mul, g1_mul_of, gt_mul, gt_mul_of, G1Point};
use crate::field::modulus;
use crate::keymaker::EncryptionKey;
use crate::params::Params;
use vstd::prelude::*;

verus! {

/// The encapsulation `g^r'` in G1 of the per-encryption scalar `r'`; public.
pub struct Capsule(pub G1Point);

/// The symmetric key `K^r'` in Gt, where `K` is the aggregated encryption key; secret.
#[derive(PartialEq, Debug)]
pub struct SymmetricKey(pub bls12_381::Gt);

/// The capsule is `g^k` and the symmetric key `encryption_key^k`.
pub open spec fn encapsulates(
    encryption_key: bls12_381::Gt,
    k: int,
    capsule: Capsule,
    key: SymmetricKey,
) -> bool {
    &&& capsule.0@ == g1_mul_of(g1_generator_encoding(), k)
    &&& key.0 == gt_mul_of(encryption_key, k)
}

/// Draws a nonzero `r'` and returns the capsule `g^r'` with the symmetric key
/// `encryption_key^r'`.
pub fn encrypt(encryption_key: &EncryptionKey) -> (r: (Capsule, SymmetricKey))
    ensures
        exists|k: int|
            0 < k < modulus() && #[trigger] encapsulates(encryption_key.0, k, r.0, r.1),
{
    let nonce = Fr::random_nonzero();
    nonce.check_range();
    encrypt_with(encryption_key, &nonce)
}

/// The capsule `g^nonce` and the symmetric key `encryption_key^nonce`.
pub fn encrypt_with(encryption_key: &EncryptionKey, nonce: &Fr) -> (r: (Capsule, SymmetricKey))
    requires
        nonce@ != 0,
    ensures
        encapsulates(encryption_key.0, nonce@, r.0, r.1),
{
    let params = Params::new();
    nonce.check_range();
    params.g.check_valid();
    let capsule = g1_mul(&params.g, nonce.to_bytes());
    let secret = gt_mul(&encryption_key.0, nonce.to_bytes());
    (Capsule(capsule), SymmetricKey(secret))
}

} // verus!

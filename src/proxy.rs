//! Re-encryption of a capsule with one key fragment.
use crate::author::KeyFrag;
use crate::encryptor::Capsule;
use crate::field::Fr;
use crate::group::{pair, pairing_of};
use vstd::prelude::*;

verus! {

/// A proxy's output: the key fragment's shared value, carried verbatim, and the pairing
/// of the capsule with the key fragment's point.
pub struct CapsuleFrag {
    pub shared_value: Fr,
    pub point: bls12_381::Gt,
}

/// Pairs the capsule with the key fragment's point, keeping its shared value.
pub fn reencrypt(capsule: &Capsule, kfrag: &KeyFrag) -> (r: CapsuleFrag)
    ensures
        r.shared_value == kfrag.shared_value,
        r.point == pairing_of(capsule.0@, kfrag.point@),
{
    capsule.0.check_valid();
    kfrag.point.check_valid();
    CapsuleFrag { shared_value: kfrag.shared_value, point: pair(&capsule.0, &kfrag.point) }
}

} // verus!

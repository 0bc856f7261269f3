//! The fixed generators of the pairing groups and their pairing.
use crate::group::{
    g1_generator, g1_generator_encoding, g2_generator, g2_generator_encoding, pair,
    pairing_of, G1Point, G2Point,
};
use vstd::prelude::*;

verus! {

/// The generators `g` of G1 and `h` of G2, and `z = e(g, h)` in Gt.
pub struct Params {
    pub g: G1Point,
    pub h: G2Point,
    pub z: bls12_381::Gt,
}

/// `z = e(g, h)` for the canonical generators.
pub open spec fn z_value() -> bls12_381::Gt {
    pairing_of(g1_generator_encoding(), g2_generator_encoding())
}

impl Params {
    /// Builds the triple from the canonical generators; `z` is always their pairing.
    pub fn new() -> (r: Params)
        ensures
            r.g@ == g1_generator_encoding(),
            r.h@ == g2_generator_encoding(),
            r.z == pairing_of(r.g@, r.h@),
            r.z == z_value(),
    {
        let g = g1_generator();
        let h = g2_generator();
        let z = pair(&g, &h);
        Params { g, h, z }
    }
}

} // verus!

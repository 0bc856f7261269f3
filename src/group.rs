//! The pairing groups of BLS12-381. Points of G1 and G2 are held as their compressed
//! encodings (48 and 96 bytes), so that contracts can speak of them; elements of Gt are
//! carried as opaque values, named by the operations that produced them.
use crate::field::{le_value, modulus};
use vstd::prelude::*;

verus! {

#[verifier::external_type_specification]
#[verifier::external_body]
pub struct ExGt(bls12_381::Gt);

/// Whether a 48-byte string is the compressed encoding of a point of G1.
pub uninterp spec fn g1_decodes(bytes: Seq<u8>) -> bool;

/// Whether a 96-byte string is the compressed encoding of a point of G2.
pub uninterp spec fn g2_decodes(bytes: Seq<u8>) -> bool;

/// The encoding of `k` times the G1 point encoded by `p`.
pub uninterp spec fn g1_mul_of(p: Seq<u8>, k: int) -> Seq<u8>;

/// The encoding of `k` times the G2 point encoded by `p`.
pub uninterp spec fn g2_mul_of(p: Seq<u8>, k: int) -> Seq<u8>;

/// The encoding of the sum of the G2 points encoded by `p` and `q`.
pub uninterp spec fn g2_add_of(p: Seq<u8>, q: Seq<u8>) -> Seq<u8>;

/// The pairing `e(p, q)` of the G1 point encoded by `p` and the G2 point encoded by `q`.
pub uninterp spec fn pairing_of(p: Seq<u8>, q: Seq<u8>) -> bls12_381::Gt;

/// `k` times the element `p` of Gt, written additively: `p^k` multiplicatively.
pub uninterp spec fn gt_mul_of(p: bls12_381::Gt, k: int) -> bls12_381::Gt;

/// The sum of the elements `p` and `q` of Gt, written additively.
pub uninterp spec fn gt_add_of(p: bls12_381::Gt, q: bls12_381::Gt) -> bls12_381::Gt;

/// The compressed encoding of the canonical generator `g` of G1.
pub open spec fn g1_generator_encoding() -> Seq<u8> {
    seq![
        0x97u8, 0xf1, 0xd3, 0xa7, 0x31, 0x97, 0xd7, 0x94, 0x26, 0x95, 0x63, 0x8c,
        0x4f, 0xa9, 0xac, 0x0f, 0xc3, 0x68, 0x8c, 0x4f, 0x97, 0x74, 0xb9, 0x05,
        0xa1, 0x4e, 0x3a, 0x3f, 0x17, 0x1b, 0xac, 0x58, 0x6c, 0x55, 0xe8, 0x3f,
        0xf9, 0x7a, 0x1a, 0xef, 0xfb, 0x3a, 0xf0, 0x0a, 0xdb, 0x22, 0xc6, 0xbb,
    ]
}

/// The compressed encoding of the canonical generator `h` of G2.
pub open spec fn g2_generator_encoding() -> Seq<u8> {
    seq![
        0x93u8, 0xe0, 0x2b, 0x60, 0x52, 0x71, 0x9f, 0x60, 0x7d, 0xac, 0xd3, 0xa0,
        0x88, 0x27, 0x4f, 0x65, 0x59, 0x6b, 0xd0, 0xd0, 0x99, 0x20, 0xb6, 0x1a,
        0xb5, 0xda, 0x61, 0xbb, 0xdc, 0x7f, 0x50, 0x49, 0x33, 0x4c, 0xf1, 0x12,
        0x13, 0x94, 0x5d, 0x57, 0xe5, 0xac, 0x7d, 0x05, 0x5d, 0x04, 0x2b, 0x7e,
        0x02, 0x4a, 0xa2, 0xb2, 0xf0, 0x8f, 0x0a, 0x91, 0x26, 0x08, 0x05, 0x27,
        0x2d, 0xc5, 0x10, 0x51, 0xc6, 0xe4, 0x7a, 0xd4, 0xfa, 0x40, 0x3b, 0x02,
        0xb4, 0x51, 0x0b, 0x64, 0x7a, 0xe3, 0xd1, 0x77, 0x0b, 0xac, 0x03, 0x26,
        0xa8, 0x05, 0xbb, 0xef, 0xd4, 0x80, 0x56, 0xc8, 0xc1, 0x21, 0xbd, 0xb8,
    ]
}

/// The compressed encoding of the neutral element of G2: the compression and infinity
/// flags, then zeros.
pub open spec fn g2_identity_encoding() -> Seq<u8> {
    Seq::new(96, |i: int| if i == 0 { 0xc0u8 } else { 0u8 })
}

/// A point of G1, stored as its compressed encoding.
#[derive(Clone, Copy, Debug, PartialEq, Eq)]
pub struct G1Point {
    bytes: [u8; 48],
}

impl View for G1Point {
    type V = Seq<u8>;

    closed spec fn view(&self) -> Seq<u8> {
        self.bytes@
    }
}

impl G1Point {
    /// Every stored encoding decodes to a point.
    #[verifier::type_invariant]
    spec fn decodable(&self) -> bool {
        g1_decodes(self.bytes@)
    }

    /// The stored encoding decodes to a point.
    pub(crate) fn check_valid(&self)
        ensures
            g1_decodes(self@),
    {
        proof {
            use_type_invariant(self);
        }
    }

    /// The 48-byte compressed encoding of this point.
    pub fn to_bytes(&self) -> (r: [u8; 48])
        ensures
            r@ == self@,
    {
        self.bytes
    }
}

/// A point of G2, stored as its compressed encoding.
#[derive(Clone, Copy, Debug, PartialEq, Eq)]
pub struct G2Point {
    bytes: [u8; 96],
}

impl View for G2Point {
    type V = Seq<u8>;

    closed spec fn view(&self) -> Seq<u8> {
        self.bytes@
    }
}

impl G2Point {
    /// Every stored encoding decodes to a point.
    #[verifier::type_invariant]
    spec fn decodable(&self) -> bool {
        g2_decodes(self.bytes@)
    }

    /// The stored encoding decodes to a point.
    pub(crate) fn check_valid(&self)
        ensures
            g2_decodes(self@),
    {
        proof {
            use_type_invariant(self);
        }
    }

    /// The 96-byte compressed encoding of this point.
    pub fn to_bytes(&self) -> (r: [u8; 96])
        ensures
            r@ == self@,
    {
        self.bytes
    }
}

/// Relies on `bls12_381::G1Affine::generator`, compressed by `to_compressed`: the
/// coordinates in `g1.rs`, out of Montgomery form, with the compression flag, and a
/// `y` that is not the larger root. `from_compressed` accepts the result.
#[verifier::external_body]
pub(crate) fn g1_generator() -> (r: G1Point)
    ensures
        r@ == g1_generator_encoding(),
        g1_decodes(r@),
{
    G1Point { bytes: bls12_381::G1Affine::generator().to_compressed() }
}

/// Relies on `bls12_381::G2Affine::generator`, compressed by `to_compressed`: `x.c1` then
/// `x.c0` of the coordinates in `g2.rs`, out of Montgomery form, with the compression
/// flag, and a `y` that is not the larger root. `from_compressed` accepts the result.
#[verifier::external_body]
pub(crate) fn g2_generator() -> (r: G2Point)
    ensures
        r@ == g2_generator_encoding(),
        g2_decodes(r@),
{
    G2Point { bytes: bls12_381::G2Affine::generator().to_compressed() }
}

/// Relies on `bls12_381::G2Affine::identity`, compressed by `to_compressed`: the two
/// flag bits and zeros.
#[verifier::external_body]
pub(crate) fn g2_identity() -> (r: G2Point)
    ensures
        r@ == g2_identity_encoding(),
        g2_decodes(r@),
{
    G2Point { bytes: bls12_381::G2Affine::identity().to_compressed() }
}

/// Relies on `Mul<Scalar>` for `bls12_381::G1Projective`: scalar multiplication in G1,
/// a function of the point and the scalar alone. The point is decoded with
/// `from_compressed` and the scalar with `Scalar::from_bytes`, which accept them.
#[verifier::external_body]
pub(crate) fn g1_mul(p: &G1Point, k: [u8; 32]) -> (r: G1Point)
    requires
        g1_decodes(p@),
        le_value(k@) < modulus(),
    ensures
        r@ == g1_mul_of(p@, le_value(k@) as int),
        g1_decodes(r@),
{
    let point = bls12_381::G1Projective::from(bls12_381::G1Affine::from_compressed(&p.bytes).unwrap());
    let scalar = bls12_381::Scalar::from_bytes(&k).unwrap();
    G1Point { bytes: bls12_381::G1Affine::from(point * scalar).to_compressed() }
}

/// Relies on `Mul<Scalar>` for `bls12_381::G2Projective`: scalar multiplication in G2,
/// a function of the point and the scalar alone. The point is decoded with
/// `from_compressed` and the scalar with `Scalar::from_bytes`, which accept them.
#[verifier::external_body]
pub(crate) fn g2_mul(p: &G2Point, k: [u8; 32]) -> (r: G2Point)
    requires
        g2_decodes(p@),
        le_value(k@) < modulus(),
    ensures
        r@ == g2_mul_of(p@, le_value(k@) as int),
        g2_decodes(r@),
{
    let point = bls12_381::G2Projective::from(bls12_381::G2Affine::from_compressed(&p.bytes).unwrap());
    let scalar = bls12_381::Scalar::from_bytes(&k).unwrap();
    G2Point { bytes: bls12_381::G2Affine::from(point * scalar).to_compressed() }
}

/// Relies on `Add` for `bls12_381::G2Projective`: the group operation of G2, a function
/// of the two points alone. Both are decoded with `from_compressed`, which accepts them.
#[verifier::external_body]
pub(crate) fn g2_add(p: &G2Point, q: &G2Point) -> (r: G2Point)
    requires
        g2_decodes(p@),
        g2_decodes(q@),
    ensures
        r@ == g2_add_of(p@, q@),
        g2_decodes(r@),
{
    let a = bls12_381::G2Projective::from(bls12_381::G2Affine::from_compressed(&p.bytes).unwrap());
    let b = bls12_381::G2Affine::from_compressed(&q.bytes).unwrap();
    G2Point { bytes: bls12_381::G2Affine::from(a + b).to_compressed() }
}

/// Relies on `bls12_381::pairing`, a function of the two points alone, applied to them
/// decoded with `from_compressed`, which accepts them.
#[verifier::external_body]
pub(crate) fn pair(p: &G1Point, q: &G2Point) -> (r: bls12_381::Gt)
    requires
        g1_decodes(p@),
        g2_decodes(q@),
    ensures
        r == pairing_of(p@, q@),
{
    let a = bls12_381::G1Affine::from_compressed(&p.bytes).unwrap();
    let b = bls12_381::G2Affine::from_compressed(&q.bytes).unwrap();
    bls12_381::pairing(&a, &b)
}

/// Relies on `Mul<Scalar>` for `bls12_381::Gt`: exponentiation in Gt, written additively,
/// a function of the element and the scalar alone. The scalar is decoded with
/// `Scalar::from_bytes`, which accepts it.
#[verifier::external_body]
pub(crate) fn gt_mul(p: &bls12_381::Gt, k: [u8; 32]) -> (r: bls12_381::Gt)
    requires
        le_value(k@) < modulus(),
    ensures
        r == gt_mul_of(*p, le_value(k@) as int),
{
    p * bls12_381::Scalar::from_bytes(&k).unwrap()
}

/// Relies on `Add` for `bls12_381::Gt`: the group operation of Gt, written additively, a
/// function of the two elements alone.
#[verifier::external_body]
pub(crate) fn gt_add(p: &bls12_381::Gt, q: &bls12_381::Gt) -> (r: bls12_381::Gt)
    ensures
        r == gt_add_of(*p, *q),
{
    p + q
}

} // verus!

//! Scalars of the BLS12-381 scalar field, held as their canonical bytes.
use vstd::prelude::*;

verus! {

/// The order `q` of the pairing groups, and the modulus of the scalar field.
pub open spec fn modulus() -> nat {
    52435875175126190479447740508185965837690552500527637822603658699938581184513nat
}

/// The integer that a little-endian byte sequence encodes.
pub open spec fn le_value(s: Seq<u8>) -> nat
    decreases s.len(),
{
    if s.len() == 0 {
        0
    } else {
        (s[0] as nat + 256 * le_value(s.subrange(1, s.len() as int))) as nat
    }
}

/// A little-endian encoding of a given length determines its bytes.
pub proof fn lemma_le_value_injective(s: Seq<u8>, t: Seq<u8>)
    requires
        s.len() == t.len(),
        le_value(s) == le_value(t),
    ensures
        s == t,
    decreases s.len(),
{
    if s.len() > 0 {
        let rs = s.subrange(1, s.len() as int);
        let rt = t.subrange(1, t.len() as int);
        let a = s[0] as int;
        let b = t[0] as int;
        let x = le_value(rs) as int;
        let y = le_value(rt) as int;
        assert(a + 256 * x == b + 256 * y);
        assert(a == b && x == y) by (nonlinear_arith)
            requires
                a + 256 * x == b + 256 * y,
                0 <= a < 256,
                0 <= b < 256,
                x >= 0,
                y >= 0,
        ;
        lemma_le_value_injective(rs, rt);
        assert forall|i: int| 0 <= i < s.len() implies s[i] == t[i] by {
            if i > 0 {
                assert(s[i] == rs[i - 1]);
                assert(t[i] == rt[i - 1]);
            }
        }
        assert(s =~= t);
    }
}

/// A sequence of zero bytes encodes zero.
proof fn lemma_le_value_zeros(s: Seq<u8>)
    requires
        forall|i: int| 0 <= i < s.len() ==> s[i] == 0,
    ensures
        le_value(s) == 0,
    decreases s.len(),
{
    if s.len() > 0 {
        let rest = s.subrange(1, s.len() as int);
        lemma_le_value_zeros(rest);
    }
}

/// A sequence with a nonzero byte encodes a positive value.
proof fn lemma_le_value_positive(s: Seq<u8>, k: int)
    requires
        0 <= k < s.len(),
        s[k] != 0,
    ensures
        le_value(s) > 0,
    decreases s.len(),
{
    let rest = s.subrange(1, s.len() as int);
    if k > 0 {
        assert(rest[k - 1] == s[k]);
        lemma_le_value_positive(rest, k - 1);
    }
}

/// An element of the scalar field, stored in its canonical 32-byte little-endian form.
#[derive(Clone, Copy, Debug)]
pub struct Fr {
    bytes: [u8; 32],
}

impl PartialEq for Fr {
    /// Two scalars are equal when their values are; canonical encodings make this a
    /// comparison of bytes.
    fn eq(&self, other: &Fr) -> (r: bool) {
        let mut i: usize = 0;
        while i < 32
            invariant
                i <= 32,
                forall|j: int| 0 <= j < i ==> self.bytes@[j] == other.bytes@[j],
            decreases 32 - i,
        {
            if self.bytes[i] != other.bytes[i] {
                proof {
                    self.lemma_encoding_matches_value(other);
                }
                return false;
            }
            i += 1;
        }
        proof {
            assert(self.bytes@ =~= other.bytes@);
            self.lemma_encoding_matches_value(other);
        }
        true
    }
}

impl vstd::std_specs::cmp::PartialEqSpecImpl for Fr {
    open spec fn obeys_eq_spec() -> bool {
        true
    }

    open spec fn eq_spec(&self, other: &Fr) -> bool {
        self@ == other@
    }
}

impl Eq for Fr {
}

impl View for Fr {
    type V = int;

    /// The field element as an integer in `[0, q)`.
    closed spec fn view(&self) -> int {
        le_value(self.bytes@) as int
    }
}

impl Fr {
    /// Every stored encoding is canonical: its value is below `q`.
    #[verifier::type_invariant]
    spec fn canonical(&self) -> bool {
        le_value(self.bytes@) < modulus()
    }

    /// The canonical encoding of this scalar.
    pub closed spec fn encoding(&self) -> Seq<u8> {
        self.bytes@
    }

    /// The value lies in `[0, q)`.
    pub fn check_range(&self)
        ensures
            0 <= self@ < modulus(),
    {
        proof {
            use_type_invariant(self);
        }
    }

    /// The encoding determines the value, and the value the encoding.
    pub proof fn lemma_encoding_matches_value(&self, other: &Fr)
        ensures
            (self.encoding() == other.encoding()) <==> (self@ == other@),
    {
        if self@ == other@ {
            lemma_le_value_injective(self.bytes@, other.bytes@);
        }
    }

    /// Relies on `bls12_381::Scalar::from_bytes`, which accepts exactly the little-endian
    /// encodings of values below `q`, and on `to_bytes`, which gives that encoding back.
    #[verifier::external_body]
    fn decode(bytes: &[u8; 32]) -> (r: Option<Fr>)
        ensures
            r.is_some() <==> le_value(bytes@) < modulus(),
            r.is_some() ==> r->0.encoding() == bytes@,
    {
        Option::<bls12_381::Scalar>::from(bls12_381::Scalar::from_bytes(bytes)).map(
            |s: bls12_381::Scalar| Fr { bytes: s.to_bytes() },
        )
    }

    /// The zero scalar.
    pub fn zero() -> (r: Fr)
        ensures
            r@ == 0,
    {
        let bytes = [0u8; 32];
        proof {
            lemma_le_value_zeros(bytes@);
        }
        Fr { bytes }
    }

    /// The scalar one.
    pub fn one() -> (r: Fr)
        ensures
            r@ == 1,
    {
        let mut bytes = [0u8; 32];
        bytes[0] = 1u8;
        proof {
            let rest = bytes@.subrange(1, 32);
            lemma_le_value_zeros(rest);
        }
        Fr { bytes }
    }

    /// Draws scalars until one is nonzero. A draw is zero with probability `1/q`, so the
    /// bound on the number of draws is never reached by a working generator; past it the
    /// result is one.
    pub(crate) fn random_nonzero() -> (r: Fr)
        ensures
            r@ != 0,
    {
        let mut draws: u64 = 0;
        while draws < u64::MAX
            decreases u64::MAX - draws,
        {
            let x = Fr::random();
            if x.is_zero() {
                draws += 1;
            } else {
                return x;
            }
        }
        Fr::one()
    }

    /// Whether this scalar is zero.
    pub fn is_zero(&self) -> (r: bool)
        ensures
            r == (self@ == 0),
    {
        let mut i: usize = 0;
        while i < 32
            invariant
                i <= 32,
                forall|j: int| 0 <= j < i ==> self.bytes@[j] == 0,
            decreases 32 - i,
        {
            if self.bytes[i] != 0 {
                proof {
                    lemma_le_value_positive(self.bytes@, i as int);
                }
                return false;
            }
            i += 1;
        }
        proof {
            lemma_le_value_zeros(self.bytes@);
        }
        true
    }

    /// Reads a scalar from its 32-byte little-endian encoding; `None` when the value is not
    /// below `q`.
    pub fn from_bytes(bytes: [u8; 32]) -> (r: Option<Fr>)
        ensures
            r.is_some() <==> le_value(bytes@) < modulus(),
            r.is_some() ==> r->0.encoding() == bytes@ && r->0@ == le_value(bytes@),
    {
        Fr::decode(&bytes)
    }

    /// The 32-byte little-endian encoding of this scalar.
    pub fn to_bytes(&self) -> (r: [u8; 32])
        ensures
            r@ == self.encoding(),
            le_value(r@) == self@,
    {
        self.bytes
    }

    /// Relies on `ff::Field::random` for `bls12_381::Scalar`: a draw from the operating
    /// system's generator, reduced into the field.
    #[verifier::external_body]
    pub(crate) fn random() -> (r: Fr) {
        Fr { bytes: <bls12_381::Scalar as ff::Field>::random(&mut rand_core::OsRng).to_bytes() }
    }

    /// Relies on `Add` for `bls12_381::Scalar`: addition modulo `q`. Both encodings are
    /// canonical, so `from_bytes` accepts them.
    #[verifier::external_body]
    pub(crate) fn add(&self, other: &Fr) -> (r: Fr)
        ensures
            r@ == (self@ + other@) % (modulus() as int),
    {
        let a = bls12_381::Scalar::from_bytes(&self.bytes).unwrap();
        let b = bls12_381::Scalar::from_bytes(&other.bytes).unwrap();
        Fr { bytes: (a + b).to_bytes() }
    }

    /// Relies on `Sub` for `bls12_381::Scalar`: subtraction modulo `q`. Both encodings are
    /// canonical, so `from_bytes` accepts them.
    #[verifier::external_body]
    pub(crate) fn sub(&self, other: &Fr) -> (r: Fr)
        ensures
            r@ == (self@ - other@) % (modulus() as int),
    {
        let a = bls12_381::Scalar::from_bytes(&self.bytes).unwrap();
        let b = bls12_381::Scalar::from_bytes(&other.bytes).unwrap();
        Fr { bytes: (a - b).to_bytes() }
    }

    /// Relies on `Mul` for `bls12_381::Scalar`: multiplication modulo `q`. Both encodings
    /// are canonical, so `from_bytes` accepts them.
    #[verifier::external_body]
    pub(crate) fn mul(&self, other: &Fr) -> (r: Fr)
        ensures
            r@ == (self@ * other@) % (modulus() as int),
    {
        let a = bls12_381::Scalar::from_bytes(&self.bytes).unwrap();
        let b = bls12_381::Scalar::from_bytes(&other.bytes).unwrap();
        Fr { bytes: (a * b).to_bytes() }
    }

    /// Relies on `bls12_381::Scalar::invert`: the multiplicative inverse modulo `q`, which
    /// exists exactly for the nonzero values. The encoding is canonical, so `from_bytes`
    /// accepts it.
    #[verifier::external_body]
    pub(crate) fn invert(&self) -> (r: Option<Fr>)
        ensures
            r.is_some() <==> self@ != 0,
            r.is_some() ==> (self@ * r->0@) % (modulus() as int) == 1,
    {
        let a = bls12_381::Scalar::from_bytes(&self.bytes).unwrap();
        Option::<bls12_381::Scalar>::from(a.invert()).map(
            |s: bls12_381::Scalar| Fr { bytes: s.to_bytes() },
        )
    }
}

} // verus!

//! Key makers: secret shares of the collective key, and key slivers for a recipient.
use crate::field::{le_value, modulus, Fr};
use crate::group::{g2_mul, g2_mul_of, gt_add, gt_add_of, gt_mul, gt_mul_of, G2Point};
use crate::params::{z_value, Params};
use crate::recipient::RecipientPublicKey;
use vstd::arithmetic::div_mod::{lemma_add_mod_noop_right, lemma_mul_mod_noop_left};
use vstd::prelude::*;

verus! {

/// The SHA3-256 digest of a byte string.
pub uninterp spec fn sha3_256_of(data: Seq<u8>) -> Seq<u8>;

/// Relies on `sha3::Sha3_256::digest`: the 32-byte SHA3-256 digest of `data`.
#[verifier::external_body]
fn sha3_256(data: &[u8]) -> (r: [u8; 32])
    ensures
        r@ == sha3_256_of(data@),
{
    <sha3::Sha3_256 as sha3::Digest>::digest(data).into()
}

/// The big-endian encoding of a 32-bit integer.
pub open spec fn be32(x: u32) -> Seq<u8> {
    seq![
        (x / 0x1000000) as u8,
        ((x / 0x10000) % 256) as u8,
        ((x / 0x100) % 256) as u8,
        (x % 256) as u8,
    ]
}

/// The bytes hashed at one attempt of deriving the shared value of `index`.
pub open spec fn hash_input(attempt: u32, index: u32, label: Seq<u8>) -> Seq<u8> {
    be32(attempt) + be32(index) + label
}

/// The digest of one attempt, read as a little-endian integer.
pub open spec fn attempt_value(label: Seq<u8>, index: u32, attempt: u32) -> nat {
    le_value(sha3_256_of(hash_input(attempt, index, label)))
}

/// An attempt is accepted when its digest encodes a scalar, that is a value below `q`.
pub open spec fn attempt_accepted(label: Seq<u8>, index: u32, attempt: u32) -> bool {
    attempt_value(label, index, attempt) < modulus()
}

/// `attempt` is the first accepted attempt.
pub open spec fn first_accepted(label: Seq<u8>, index: u32, attempt: u32) -> bool {
    &&& attempt_accepted(label, index, attempt)
    &&& forall|b: u32| b < attempt ==> !attempt_accepted(label, index, b)
}

/// The shared value of `index` under `label`: the digest of the first accepted attempt,
/// or `None` when no 32-bit attempt counter gives an accepted digest.
pub open spec fn shared_value_of(label: Seq<u8>, index: u32) -> Option<int> {
    if exists|a: u32| first_accepted(label, index, a) {
        Some(attempt_value(label, index, choose|a: u32| first_accepted(label, index, a)) as int)
    } else {
        None
    }
}

/// Every index below `shares` has a shared value under `label`.
pub open spec fn shared_values_exist(label: Seq<u8>, shares: nat) -> bool {
    forall|i: int| 0 <= i < shares ==> (#[trigger] shared_value_of(label, i as u32)).is_some()
}

/// The shared values of the indices below `shares` under `label`.
pub open spec fn shared_values_of(label: Seq<u8>, shares: nat) -> Seq<int> {
    Seq::new(shares, |i: int| shared_value_of(label, i as u32)->0)
}

/// The values of a sequence of scalars.
pub open spec fn values_of(xs: Seq<Fr>) -> Seq<int> {
    xs.map_values(|x: Fr| x@)
}

/// Two key slivers made for the same label and number of shares, by any key makers and in
/// any calls, carry the same shared values, down to their encodings.
pub proof fn lemma_shared_values_follow_label(
    a: KeySliver,
    b: KeySliver,
    label: Seq<u8>,
    shares: nat,
)
    requires
        values_of(a.shared_values@) == shared_values_of(label, shares),
        values_of(b.shared_values@) == shared_values_of(label, shares),
    ensures
        values_of(a.shared_values@) == values_of(b.shared_values@),
        a.shared_values@.len() == b.shared_values@.len(),
        forall|i: int|
            0 <= i < a.shared_values@.len() ==> (#[trigger] a.shared_values@[i]).encoding()
                == b.shared_values@[i].encoding(),
{
    assert(values_of(a.shared_values@).len() == a.shared_values@.len());
    assert(values_of(b.shared_values@).len() == b.shared_values@.len());
    assert forall|i: int|
        0 <= i < a.shared_values@.len() implies (#[trigger] a.shared_values@[i]).encoding()
        == b.shared_values@[i].encoding() by {
        assert(values_of(a.shared_values@)[i] == values_of(b.shared_values@)[i]);
        assert(values_of(a.shared_values@)[i] == a.shared_values@[i]@);
        assert(values_of(b.shared_values@)[i] == b.shared_values@[i]@);
        a.shared_values@[i].lemma_encoding_matches_value(&b.shared_values@[i]);
    }
}

/// Writes the big-endian encoding of `x` at the end of `out`.
fn push_be32(out: &mut Vec<u8>, x: u32)
    ensures
        final(out)@ == old(out)@ + be32(x),
{
    out.push((x / 0x1000000) as u8);
    out.push(((x / 0x10000) % 256) as u8);
    out.push(((x / 0x100) % 256) as u8);
    out.push((x % 256) as u8);
    assert(final(out)@ =~= old(out)@ + be32(x));
}

/// The digest hashed at one attempt: `attempt_be32 || index_be32 || label`.
fn attempt_digest(label: &[u8], index: u32, attempt: u32) -> (r: [u8; 32])
    ensures
        r@ == sha3_256_of(hash_input(attempt, index, label@)),
{
    let mut data: Vec<u8> = Vec::new();
    push_be32(&mut data, attempt);
    push_be32(&mut data, index);
    let mut i: usize = 0;
    while i < label.len()
        invariant
            i <= label@.len(),
            data@ == be32(attempt) + be32(index) + label@.subrange(0, i as int),
        decreases label@.len() - i,
    {
        data.push(label[i]);
        i += 1;
        assert(data@ =~= be32(attempt) + be32(index) + label@.subrange(0, i as int));
    }
    assert(label@.subrange(0, label@.len() as int) =~= label@);
    sha3_256(data.as_slice())
}

/// Derives the shared value of `index` from `label` by rejection sampling on SHA3-256.
fn hash_to_scalar(label: &[u8], index: u32) -> (r: Option<Fr>)
    ensures
        r.is_some() == shared_value_of(label@, index).is_some(),
        r.is_some() ==> r->0@ == shared_value_of(label@, index)->0,
{
    let mut attempt: u32 = 0;
    loop
        invariant
            forall|b: u32| b < attempt ==> !attempt_accepted(label@, index, b),
        decreases u32::MAX - attempt,
    {
        let digest = attempt_digest(label, index, attempt);
        let parsed = Fr::from_bytes(digest);
        if let Some(x) = parsed {
            proof {
                assert(first_accepted(label@, index, attempt));
                let c = choose|a: u32| first_accepted(label@, index, a);
                if c < attempt {
                } else if attempt < c {
                    assert(!attempt_accepted(label@, index, attempt));
                }
            }
            return Some(x);
        }
        if attempt == u32::MAX {
            proof {
                assert forall|a: u32| !first_accepted(label@, index, a) by {
                    assert(!attempt_accepted(label@, index, a));
                }
            }
            return None;
        }
        attempt += 1;
    }
}

/// Evaluates a polynomial, coefficients listed from degree 0 upwards, at `x`.
pub open spec fn poly_at(coeffs: Seq<int>, x: int) -> int
    decreases coeffs.len(),
{
    if coeffs.len() == 0 {
        0
    } else {
        coeffs[0] + x * poly_at(coeffs.subrange(1, coeffs.len() as int), x)
    }
}

/// Evaluates `coeff0 + coeffs[0] x + coeffs[1] x^2 + ...` at `x` in the scalar field.
fn poly_eval(coeff0: &Fr, coeffs: &Vec<Fr>, x: &Fr) -> (r: Fr)
    ensures
        r@ == poly_at(seq![coeff0@] + values_of(coeffs@), x@) % (modulus() as int),
{
    let ghost cs = values_of(coeffs@);
    let ghost m = modulus() as int;
    let mut acc = Fr::zero();
    let mut i: usize = coeffs.len();
    assert(cs.subrange(i as int, cs.len() as int) =~= Seq::<int>::empty());
    while i > 0
        invariant
            i <= coeffs@.len(),
            cs == values_of(coeffs@),
            m == modulus() as int,
            acc@ == poly_at(cs.subrange(i as int, cs.len() as int), x@) % m,
        decreases i,
    {
        i -= 1;
        let ghost prev = poly_at(cs.subrange(i + 1, cs.len() as int), x@);
        let t = acc.mul(x);
        acc = coeffs[i].add(&t);
        proof {
            let sub = cs.subrange(i as int, cs.len() as int);
            assert(sub.subrange(1, sub.len() as int) =~= cs.subrange(i + 1, cs.len() as int));
            lemma_mul_mod_noop_left(prev, x@, m);
            assert(t@ == (prev * x@) % m) by {
                assert(x@ * prev == prev * x@) by (nonlinear_arith);
            }
            lemma_add_mod_noop_right(cs[i as int], prev * x@, m);
            assert(cs[i as int] == coeffs@[i as int]@);
        }
    }
    let t = acc.mul(x);
    let r = coeff0.add(&t);
    proof {
        let all = seq![coeff0@] + cs;
        assert(cs.subrange(0, cs.len() as int) =~= cs);
        assert(all.subrange(1, all.len() as int) =~= cs);
        let p = poly_at(cs, x@);
        lemma_mul_mod_noop_left(p, x@, m);
        assert(x@ * p == p * x@) by (nonlinear_arith);
        lemma_add_mod_noop_right(coeff0@, p * x@, m);
    }
    r
}

/// One key maker: the holder of a nonzero secret scalar `s`.
pub struct KeyMaker {
    secret_key: Fr,
}

/// A key maker's share `z^s` of the encryption key, or a sum of such shares.
pub struct EncryptionKey(pub bls12_381::Gt);

impl<'a> vstd::std_specs::ops::AddSpecImpl<&'a EncryptionKey> for &'a EncryptionKey {
    open spec fn obeys_add_spec() -> bool {
        true
    }

    open spec fn add_req(self, other: &'a EncryptionKey) -> bool {
        true
    }

    /// The sum in Gt.
    open spec fn add_spec(self, other: &'a EncryptionKey) -> EncryptionKey {
        EncryptionKey(gt_add_of(self.0, other.0))
    }
}

impl<'a> std::ops::Add<&'a EncryptionKey> for &'a EncryptionKey {
    type Output = EncryptionKey;

    /// The sum of two shares in Gt.
    fn add(self, other: &'a EncryptionKey) -> (r: EncryptionKey)
        ensures
            r.0 == gt_add_of(self.0, other.0),
    {
        EncryptionKey(gt_add(&self.0, &other.0))
    }
}

impl<'a> vstd::std_specs::ops::AddSpecImpl<&'a EncryptionKey> for EncryptionKey {
    open spec fn obeys_add_spec() -> bool {
        true
    }

    open spec fn add_req(self, other: &'a EncryptionKey) -> bool {
        true
    }

    /// The sum in Gt.
    open spec fn add_spec(self, other: &'a EncryptionKey) -> EncryptionKey {
        EncryptionKey(gt_add_of(self.0, other.0))
    }
}

impl<'a> std::ops::Add<&'a EncryptionKey> for EncryptionKey {
    type Output = EncryptionKey;

    /// The sum of two shares in Gt.
    fn add(self, other: &'a EncryptionKey) -> (r: EncryptionKey)
        ensures
            r.0 == gt_add_of(self.0, other.0),
    {
        EncryptionKey(gt_add(&self.0, &other.0))
    }
}

/// One key maker's contribution for a recipient: the shared values `x_i`, and for each
/// the recipient's public key raised to the key maker's polynomial at `x_i`.
pub struct KeySliver {
    pub shared_values: Vec<Fr>,
    pub reencryption_key_parts: Vec<G2Point>,
}

impl KeySliver {
    /// Both sequences have one entry per share.
    pub open spec fn wf(&self) -> bool {
        self.shared_values@.len() == self.reencryption_key_parts@.len()
    }

    /// Each part is the recipient's key `pk` raised to the polynomial with constant term
    /// `secret` and higher coefficients `coeffs`, evaluated at the part's shared value.
    pub open spec fn follows_polynomial(&self, pk: Seq<u8>, secret: int, coeffs: Seq<int>) -> bool {
        forall|i: int|
            0 <= i < self.reencryption_key_parts@.len() ==> (#[trigger] self.reencryption_key_parts@[i])@
                == key_part(pk, secret, coeffs, self.shared_values@[i]@)
    }
}

/// The part of the key `pk` at the shared value `x` for a polynomial with constant term
/// `secret` and higher coefficients `coeffs`: `pk^P(x)`.
pub open spec fn key_part(pk: Seq<u8>, secret: int, coeffs: Seq<int>, x: int) -> Seq<u8> {
    g2_mul_of(pk, poly_at(seq![secret] + coeffs, x) % (modulus() as int))
}

impl KeyMaker {
    /// The key maker's secret scalar.
    pub closed spec fn secret(&self) -> int {
        self.secret_key@
    }

    /// A key maker with a fresh nonzero secret.
    pub fn random() -> (r: KeyMaker)
        ensures
            r.secret() != 0,
    {
        KeyMaker { secret_key: Fr::random_nonzero() }
    }

    /// This key maker's share `z^s` of the encryption key.
    pub fn encryption_key(&self) -> (r: EncryptionKey)
        ensures
            r.0 == gt_mul_of(z_value(), self.secret()),
    {
        let params = Params::new();
        self.secret_key.check_range();
        EncryptionKey(gt_mul(&params.z, self.secret_key.to_bytes()))
    }

    /// Makes this key maker's sliver of `shares` key parts for a recipient, with a fresh
    /// polynomial of degree `threshold - 1` whose constant term is the secret. The shared
    /// values depend on `label` and `shares` alone; `None` when one of them cannot be
    /// derived.
    pub fn make_key_sliver(
        &self,
        label: &[u8],
        recipient_key: &RecipientPublicKey,
        threshold: usize,
        shares: usize,
    ) -> (r: Option<KeySliver>)
        requires
            1 <= threshold <= shares,
            shares <= u32::MAX,
        ensures
            r.is_some() == shared_values_exist(label@, shares as nat),
            r.is_some() ==> r->0.wf() && values_of(r->0.shared_values@) == shared_values_of(
                label@,
                shares as nat,
            ),
            r.is_some() ==> exists|coeffs: Seq<int>|
                coeffs.len() == threshold - 1 && #[trigger] r->0.follows_polynomial(
                    recipient_key.0@,
                    self.secret(),
                    coeffs,
                ),
    {
        let mut coeffs: Vec<Fr> = Vec::new();
        let mut j: usize = 1;
        while j < threshold
            invariant
                1 <= j <= threshold,
                coeffs@.len() == j - 1,
            decreases threshold - j,
        {
            coeffs.push(Fr::random());
            j += 1;
        }
        let r = self.make_key_sliver_with(label, recipient_key, &coeffs, shares);
        assert(r.is_some() ==> r->0.follows_polynomial(recipient_key.0@, self.secret(), values_of(coeffs@)));
        r
    }

    /// Makes this key maker's sliver of `shares` key parts for a recipient along the
    /// polynomial with the secret as constant term and `coeffs` as higher coefficients.
    /// `None` when a shared value cannot be derived from `label`.
    pub fn make_key_sliver_with(
        &self,
        label: &[u8],
        recipient_key: &RecipientPublicKey,
        coeffs: &Vec<Fr>,
        shares: usize,
    ) -> (r: Option<KeySliver>)
        requires
            coeffs@.len() < shares <= u32::MAX,
        ensures
            r.is_some() == shared_values_exist(label@, shares as nat),
            r.is_some() ==> r->0.wf() && values_of(r->0.shared_values@) == shared_values_of(
                label@,
                shares as nat,
            ),
            r.is_some() ==> r->0.follows_polynomial(recipient_key.0@, self.secret(), values_of(coeffs@)),
    {
        let mut shared_values: Vec<Fr> = Vec::new();
        let mut parts: Vec<G2Point> = Vec::new();
        let mut i: usize = 0;
        while i < shares
            invariant
                i <= shares <= u32::MAX,
                shared_values@.len() == i,
                parts@.len() == i,
                values_of(shared_values@) == shared_values_of(label@, i as nat),
                shared_values_exist(label@, i as nat),
                forall|t: int|
                    0 <= t < i ==> (#[trigger] parts@[t])@ == key_part(
                        recipient_key.0@,
                        self.secret_key@,
                        values_of(coeffs@),
                        shared_values@[t]@,
                    ),
            decreases shares - i,
        {
            let x = match hash_to_scalar(label, i as u32) {
                Some(x) => x,
                None => {
                    assert(!shared_values_exist(label@, shares as nat)) by {
                        assert(shared_value_of(label@, i as int as u32).is_none());
                    }
                    return None;
                },
            };
            let e = poly_eval(&self.secret_key, coeffs, &x);
            recipient_key.0.check_valid();
            e.check_range();
            parts.push(g2_mul(&recipient_key.0, e.to_bytes()));
            let ghost before = shared_values@;
            shared_values.push(x);
            i += 1;
            proof {
                let vs = values_of(shared_values@);
                let want = shared_values_of(label@, i as nat);
                assert forall|k: int| 0 <= k < i implies vs[k] == want[k] by {
                    if k < i - 1 {
                        assert(shared_values@[k] == before[k]);
                        assert(values_of(before)[k] == shared_values_of(label@, (i - 1) as nat)[k]);
                    }
                }
                assert(vs =~= want);
                assert forall|k: int| 0 <= k < i implies (#[trigger] shared_value_of(
                    label@,
                    k as u32,
                )).is_some() by {
                    if k < i - 1 {
                    }
                }
            }
        }
        let r = KeySliver { shared_values, reencryption_key_parts: parts };
        assert(r.follows_polynomial(recipient_key.0@, self.secret(), values_of(coeffs@)));
        Some(r)
    }
}

} // verus!

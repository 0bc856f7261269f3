//! The recipient's keys, and decryption from capsule fragments.
use crate::encryptor::SymmetricKey;
use crate::error::TpreError;
use crate::field::{modulus, Fr};
use crate::group::{g2_generator_encoding, g2_mul, g2_mul_of, gt_add, gt_add_of, gt_mul, gt_mul_of, G2Point};
use crate::keymaker::values_of;
use crate::params::Params;
use crate::proxy::CapsuleFrag;
use vstd::arithmetic::div_mod::{lemma_mul_mod_noop_left, lemma_mul_mod_noop_right};
use vstd::prelude::*;

verus! {

/// The recipient's secret key: a scalar `r`.
pub struct RecipientSecretKey(Fr);

/// The recipient's public key `h^r` in G2.
pub struct RecipientPublicKey(pub G2Point);

impl RecipientSecretKey {
    /// The secret scalar.
    pub closed spec fn secret(&self) -> int {
        self.0@
    }

    /// A fresh nonzero secret key.
    pub fn random() -> (r: RecipientSecretKey)
        ensures
            r.secret() != 0,
    {
        RecipientSecretKey(Fr::random_nonzero())
    }

    /// The matching public key `h^r`.
    pub fn public_key(&self) -> (r: RecipientPublicKey)
        ensures
            r.0@ == g2_mul_of(g2_generator_encoding(), self.secret()),
    {
        RecipientPublicKey::from_secret_key(self)
    }
}

impl RecipientPublicKey {
    fn from_secret_key(sk: &RecipientSecretKey) -> (r: RecipientPublicKey)
        ensures
            r.0@ == g2_mul_of(g2_generator_encoding(), sk.secret()),
    {
        let params = Params::new();
        sk.0.check_range();
        params.h.check_valid();
        RecipientPublicKey(g2_mul(&params.h, sk.0.to_bytes()))
    }
}

/// The product of `xs[j]` over the indices `j < n` other than `i`.
pub open spec fn others_product(xs: Seq<int>, i: int, n: int) -> int
    decreases n,
{
    if n <= 0 {
        1
    } else if n - 1 == i {
        others_product(xs, i, n - 1)
    } else {
        others_product(xs, i, n - 1) * xs[n - 1]
    }
}

/// The product of `xs[j] - xs[i]` over the indices `j < n` other than `i`.
pub open spec fn differences_product(xs: Seq<int>, i: int, n: int) -> int
    decreases n,
{
    if n <= 0 {
        1
    } else if n - 1 == i {
        differences_product(xs, i, n - 1)
    } else {
        differences_product(xs, i, n - 1) * (xs[n - 1] - xs[i])
    }
}

/// `lambda` is the Lagrange coefficient at zero of the point `i` among `xs`:
/// `lambda * prod_{j != i} (x_j - x_i) == prod_{j != i} x_j` modulo `q`.
pub open spec fn is_lagrange_coefficient(xs: Seq<int>, i: int, lambda: int) -> bool {
    (lambda * differences_product(xs, i, xs.len() as int)) % (modulus() as int)
        == others_product(xs, i, xs.len() as int) % (modulus() as int)
}

/// Some two distinct positions of `xs` hold the same value.
pub open spec fn has_duplicate(xs: Seq<int>) -> bool {
    exists|j: int, k: int| 0 <= j < xs.len() && 0 <= k < xs.len() && j != k && xs[j] == xs[k]
}

/// One step of the coefficient product stays congruent: from `res * den == num` and
/// `inv * d == 1`, the updated `res` satisfies it with `x` and `d` multiplied in.
proof fn lemma_lagrange_step(res: int, den: int, num: int, x: int, d: int, inv: int, m: int)
    requires
        m > 0,
        (res * den) % m == num % m,
        (inv * (d % m)) % m == 1 || ((d % m) * inv) % m == 1,
    ensures
        ((((res * x) % m) * inv) % m * (den * d)) % m == (num * x) % m,
{
    let a = (res * x) % m;
    let b = (a * inv) % m;
    lemma_mul_mod_noop_left(a * inv, den * d, m);
    lemma_mul_mod_noop_left(res * x, inv * (den * d), m);
    assert(a * inv * (den * d) == a * (inv * (den * d))) by (nonlinear_arith);
    let y = x * (inv * d);
    assert((res * x) * (inv * (den * d)) == (res * den) * (x * (inv * d))) by (nonlinear_arith);
    lemma_mul_mod_noop_left(res * den, y, m);
    lemma_mul_mod_noop_left(num, y, m);
    assert(num * (x * (inv * d)) == (num * x) * (inv * d)) by (nonlinear_arith);
    lemma_mul_mod_noop_right(num * x, inv * d, m);
    lemma_mul_mod_noop_right(inv, d, m);
    assert(inv * (d % m) == (d % m) * inv) by (nonlinear_arith);
    assert((num * x) * 1 == num * x);
}

/// The Lagrange coefficient at zero of the point `i` among `xs`; `None` when another
/// point has the same value, so that a difference has no inverse.
fn lambda_coeff(xs: &Vec<Fr>, i: usize) -> (r: Option<Fr>)
    requires
        i < xs@.len(),
    ensures
        r.is_some() <==> forall|j: int|
            0 <= j < xs@.len() && j != i ==> #[trigger] xs@[j]@ != xs@[i as int]@,
        r.is_some() ==> is_lagrange_coefficient(values_of(xs@), i as int, r->0@),
{
    let ghost vs = values_of(xs@);
    let ghost m = modulus() as int;
    let mut res = Fr::one();
    let mut j: usize = 0;
    while j < xs.len()
        invariant
            i < xs@.len(),
            j <= xs@.len(),
            vs == values_of(xs@),
            m == modulus() as int,
            forall|k: int| 0 <= k < j && k != i ==> #[trigger] xs@[k]@ != xs@[i as int]@,
            (res@ * differences_product(vs, i as int, j as int)) % m == others_product(
                vs,
                i as int,
                j as int,
            ) % m,
        decreases xs@.len() - j,
    {
        if j != i {
            let diff = xs[j].sub(&xs[i]);
            xs[j].check_range();
            xs[i].check_range();
            match diff.invert() {
                None => {
                    assert(xs@[j as int]@ == xs@[i as int]@) by {
                        let a = xs@[j as int]@;
                        let b = xs@[i as int]@;
                        assert((a - b) % m == 0);
                        assert(-m < a - b < m);
                        if a - b > 0 {
                            assert((a - b) % m == a - b) by (nonlinear_arith)
                                requires 0 < a - b < m;
                        } else if a - b < 0 {
                            assert((a - b) % m == a - b + m) by (nonlinear_arith)
                                requires -m < a - b < 0;
                        }
                    }
                    return None;
                },
                Some(inv) => {
                    let ghost old_res = res@;
                    let t = res.mul(&xs[j]);
                    res = t.mul(&inv);
                    proof {
                        lemma_lagrange_step(
                            old_res,
                            differences_product(vs, i as int, j as int),
                            others_product(vs, i as int, j as int),
                            vs[j as int],
                            vs[j as int] - vs[i as int],
                            inv@,
                            m,
                        );
                        assert(differences_product(vs, i as int, j + 1) == differences_product(vs, i as int, j as int) * (vs[j as int] - vs[i as int]));
                        assert(others_product(vs, i as int, j + 1) == others_product(vs, i as int, j as int) * vs[j as int]);
                        assert(xs@[j as int]@ != xs@[i as int]@) by {
                            if xs@[j as int]@ == xs@[i as int]@ {
                                assert(diff@ == 0);
                            }
                        }
                    }
                },
            }
        }
        j += 1;
    }
    Some(res)
}

/// The shared values carried by a sequence of capsule fragments.
pub open spec fn cfrag_values(cfrags: Seq<CapsuleFrag>) -> Seq<int> {
    cfrags.map_values(|c: CapsuleFrag| c.shared_value@)
}

/// The sum over the first `n` fragments (at least one) of each point times its
/// coefficient in `ls`, added in order.
pub open spec fn lagrange_sum(cfrags: Seq<CapsuleFrag>, ls: Seq<int>, n: int) -> bls12_381::Gt
    decreases n,
{
    if n <= 1 {
        gt_mul_of(cfrags[0].point, ls[0])
    } else {
        gt_add_of(lagrange_sum(cfrags, ls, n - 1), gt_mul_of(cfrags[n - 1].point, ls[n - 1]))
    }
}

/// `key` is the decryption of `cfrags` under the secret `secret`: the fragments' points
/// combined with their Lagrange coefficients at zero `ls`, times the inverse `inv` of the
/// secret, all coefficients taken in `[0, q)`.
#[verifier::opaque]
pub open spec fn is_decryption(
    cfrags: Seq<CapsuleFrag>,
    secret: int,
    ls: Seq<int>,
    inv: int,
    key: bls12_381::Gt,
) -> bool {
    &&& ls.len() == cfrags.len()
    &&& forall|i: int|
        0 <= i < ls.len() ==> 0 <= #[trigger] ls[i] < modulus() && is_lagrange_coefficient(
            cfrag_values(cfrags),
            i,
            ls[i],
        )
    &&& 0 <= inv < modulus()
    &&& (secret * inv) % (modulus() as int) == 1
    &&& key == gt_mul_of(lagrange_sum(cfrags, ls, cfrags.len() as int), inv)
}

/// Combines capsule fragments by Lagrange interpolation at zero in the exponent, then
/// removes the recipient's secret. Fails with `EmptyInput` on no fragments, with
/// `DegenerateShares` when two fragments carry the same shared value, and with
/// `InvalidKey` when the secret key is zero. With fewer fragments than the threshold the
/// result is a well-formed but wrong key.
pub fn decrypt(sk: &RecipientSecretKey, cfrags: &[CapsuleFrag]) -> (r: Result<SymmetricKey, TpreError>)
    ensures
        cfrags@.len() == 0 ==> r == Err::<SymmetricKey, TpreError>(TpreError::EmptyInput),
        cfrags@.len() > 0 && has_duplicate(cfrag_values(cfrags@)) ==> r == Err::<
            SymmetricKey,
            TpreError,
        >(TpreError::DegenerateShares),
        cfrags@.len() > 0 && !has_duplicate(cfrag_values(cfrags@)) && sk.secret() == 0 ==> r
            == Err::<SymmetricKey, TpreError>(TpreError::InvalidKey),
        r.is_ok() <==> cfrags@.len() > 0 && !has_duplicate(cfrag_values(cfrags@)) && sk.secret()
            != 0,
        r.is_ok() ==> exists|ls: Seq<int>, inv: int|
            #[trigger] is_decryption(cfrags@, sk.secret(), ls, inv, r->Ok_0.0),
{
    if cfrags.len() == 0 {
        return Err(TpreError::EmptyInput);
    }
    let mut xs: Vec<Fr> = Vec::new();
    let mut k: usize = 0;
    while k < cfrags.len()
        invariant
            k <= cfrags@.len(),
            xs@.len() == k,
            forall|t: int| 0 <= t < k ==> (#[trigger] xs@[t])@ == cfrags@[t].shared_value@,
        decreases cfrags@.len() - k,
    {
        xs.push(cfrags[k].shared_value);
        k += 1;
    }
    assert(values_of(xs@) =~= cfrag_values(cfrags@));
    let mut lambdas: Vec<Fr> = Vec::new();
    let mut i: usize = 0;
    while i < xs.len()
        invariant
            i <= xs@.len(),
            xs@.len() == cfrags@.len(),
            values_of(xs@) == cfrag_values(cfrags@),
            lambdas@.len() == i,
            forall|t: int| 0 <= t < i ==> 0 <= #[trigger] lambdas@[t]@ < modulus(),
            forall|t: int| 0 <= t < i ==> is_lagrange_coefficient(values_of(xs@), t, #[trigger] lambdas@[t]@),
            forall|t: int, u: int| 0 <= t < i && 0 <= u < xs@.len() && u != t ==> #[trigger] xs@[u]@ != #[trigger] xs@[t]@,
        decreases xs@.len() - i,
    {
        match lambda_coeff(&xs, i) {
            None => {
                assert(has_duplicate(cfrag_values(cfrags@))) by {
                    let j = choose|j: int| 0 <= j < xs@.len() && j != i && #[trigger] xs@[j]@ == xs@[i as int]@;
                    let cv = cfrag_values(cfrags@);
                    assert(cv == values_of(xs@));
                    assert(cv[j] == xs@[j]@);
                    assert(cv[i as int] == xs@[i as int]@);
                    assert(0 <= j < cv.len() && 0 <= i < cv.len() && j != i && cv[j] == cv[i as int]);
                }
                return Err(TpreError::DegenerateShares);
            },
            Some(lambda) => {
                lambda.check_range();
                lambdas.push(lambda);
            },
        }
        i += 1;
    }
    assert(!has_duplicate(cfrag_values(cfrags@))) by {
        if has_duplicate(cfrag_values(cfrags@)) {
            let (j, t) = choose|j: int, t: int| 0 <= j < xs@.len() && 0 <= t < xs@.len() && j != t && cfrag_values(cfrags@)[j] == cfrag_values(cfrags@)[t];
            assert(values_of(xs@)[j] == xs@[j]@);
            assert(values_of(xs@)[t] == xs@[t]@);
        }
    }
    let inv_sk = match sk.0.invert() {
        None => {
            return Err(TpreError::InvalidKey);
        },
        Some(inv) => inv,
    };
    let ghost ls = values_of(lambdas@);
    let mut combined = gt_mul(&cfrags[0].point, lambdas[0].to_bytes());
    let mut t: usize = 1;
    while t < cfrags.len()
        invariant
            1 <= t <= cfrags@.len(),
            lambdas@.len() == cfrags@.len(),
            ls == values_of(lambdas@),
            combined == lagrange_sum(cfrags@, ls, t as int),
        decreases cfrags@.len() - t,
    {
        lambdas[t].check_range();
        let term = gt_mul(&cfrags[t].point, lambdas[t].to_bytes());
        combined = gt_add(&combined, &term);
        t += 1;
    }
    inv_sk.check_range();
    sk.0.check_range();
    let key = gt_mul(&combined, inv_sk.to_bytes());
    let r = SymmetricKey(key);
    assert(is_decryption(cfrags@, sk.secret(), ls, inv_sk@, r.0)) by {
        reveal(is_decryption);
    }
    let out: Result<SymmetricKey, TpreError> = Ok(r);
    assert(out->Ok_0.0 == key);
    out
}

} // verus!

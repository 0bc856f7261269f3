//! Aggregation of key slivers into key fragments.
use crate::error::TpreError;
use crate::field::Fr;
use crate::group::{g2_add, g2_add_of, g2_decodes, g2_identity, g2_identity_encoding, G2Point};
use crate::keymaker::{values_of, KeySliver};
use vstd::prelude::*;

verus! {

/// One share of the aggregated re-encryption key: its shared value `x_i`, and the sum
/// over all key makers of their parts at `x_i`.
pub struct KeyFrag {
    pub shared_value: Fr,
    pub point: G2Point,
}

/// The sum of the parts at share `i` of the first `n` slivers, added in order.
pub open spec fn summed_part(slivers: Seq<KeySliver>, i: int, n: int) -> Seq<u8>
    decreases n,
{
    if n <= 0 {
        g2_identity_encoding()
    } else {
        g2_add_of(summed_part(slivers, i, n - 1), slivers[n - 1].reencryption_key_parts@[i]@)
    }
}

/// Every two slivers carry the same shared values.
pub open spec fn slivers_consistent(slivers: Seq<KeySliver>) -> bool {
    forall|j: int, k: int|
        0 <= j < slivers.len() && 0 <= k < slivers.len() ==> values_of(
            #[trigger] slivers[j].shared_values@,
        ) == values_of(#[trigger] slivers[k].shared_values@)
}

/// Two slivers that differ in any shared value are inconsistent, so that
/// `generate_kfrags` fails on them with `InconsistentShares`.
pub proof fn lemma_mismatch_detected(a: KeySliver, b: KeySliver)
    requires
        values_of(a.shared_values@) != values_of(b.shared_values@),
    ensures
        !slivers_consistent(seq![a, b]),
{
    let s = seq![a, b];
    assert(s[0] == a && s[1] == b);
    assert(values_of(s[0].shared_values@) != values_of(s[1].shared_values@));
}

/// Reordering the slivers changes neither whether aggregation succeeds nor the shared
/// values of the key fragments, which are those of the first sliver.
pub proof fn lemma_reordering_keeps_shares(s: Seq<KeySliver>, t: Seq<KeySliver>, perm: Seq<int>)
    requires
        t.len() == s.len(),
        perm.len() == s.len(),
        forall|k: int| 0 <= k < t.len() ==> 0 <= #[trigger] perm[k] < s.len() && t[k] == s[perm[k]],
        forall|j: int| 0 <= j < s.len() ==> #[trigger] perm.contains(j),
    ensures
        slivers_consistent(s) <==> slivers_consistent(t),
        s.len() > 0 && slivers_consistent(s) ==> values_of(s[0].shared_values@) == values_of(
            t[0].shared_values@,
        ),
{
    if slivers_consistent(s) {
        assert forall|j: int, k: int|
            0 <= j < t.len() && 0 <= k < t.len() implies values_of(
            #[trigger] t[j].shared_values@,
        ) == values_of(#[trigger] t[k].shared_values@) by {
            assert(t[j] == s[perm[j]]);
            assert(t[k] == s[perm[k]]);
        }
        if s.len() > 0 {
            assert(t[0] == s[perm[0]]);
        }
    }
    if slivers_consistent(t) {
        assert forall|j: int, k: int|
            0 <= j < s.len() && 0 <= k < s.len() implies values_of(
            #[trigger] s[j].shared_values@,
        ) == values_of(#[trigger] s[k].shared_values@) by {
            assert(perm.contains(j));
            assert(perm.contains(k));
            let a = choose|a: int| 0 <= a < perm.len() && #[trigger] perm[a] == j;
            let b = choose|b: int| 0 <= b < perm.len() && #[trigger] perm[b] == k;
            assert(t[a] == s[j]);
            assert(t[b] == s[k]);
        }
    }
}

/// Whether two sequences of scalars hold the same values.
fn same_values(a: &Vec<Fr>, b: &Vec<Fr>) -> (r: bool)
    ensures
        r == (values_of(a@) == values_of(b@)),
{
    if a.len() != b.len() {
        return false;
    }
    let mut i: usize = 0;
    while i < a.len()
        invariant
            i <= a@.len() == b@.len(),
            forall|j: int| 0 <= j < i ==> a@[j]@ == b@[j]@,
        decreases a@.len() - i,
    {
        if a[i] != b[i] {
            assert(values_of(a@)[i as int] != values_of(b@)[i as int]);
            return false;
        }
        i += 1;
    }
    assert(values_of(a@) =~= values_of(b@));
    true
}

/// Sums the slivers share by share into key fragments. Fails with `EmptyInput` on no
/// slivers and with `InconsistentShares` when two slivers disagree on a shared value.
pub fn generate_kfrags(kslivers: &[KeySliver]) -> (r: Result<Vec<KeyFrag>, TpreError>)
    requires
        forall|k: int| 0 <= k < kslivers@.len() ==> (#[trigger] kslivers@[k]).wf(),
    ensures
        kslivers@.len() == 0 ==> r == Err::<Vec<KeyFrag>, TpreError>(TpreError::EmptyInput),
        kslivers@.len() > 0 ==> (r.is_ok() <==> slivers_consistent(kslivers@)),
        kslivers@.len() > 0 && !slivers_consistent(kslivers@) ==> r == Err::<
            Vec<KeyFrag>,
            TpreError,
        >(TpreError::InconsistentShares),
        r.is_ok() ==> r->Ok_0@.len() == kslivers@[0].shared_values@.len() && forall|i: int|
            0 <= i < r->Ok_0@.len() ==> (#[trigger] r->Ok_0@[i]).shared_value@ == values_of(
                kslivers@[0].shared_values@,
            )[i],
        r.is_ok() ==> forall|i: int|
            0 <= i < r->Ok_0@.len() ==> (#[trigger] r->Ok_0@[i]).point@ == summed_part(
                kslivers@,
                i,
                kslivers@.len() as int,
            ),
{
    if kslivers.len() == 0 {
        return Err(TpreError::EmptyInput);
    }
    let first = &kslivers[0].shared_values;
    let mut k: usize = 1;
    while k < kslivers.len()
        invariant
            1 <= k <= kslivers@.len(),
            first == kslivers@[0].shared_values,
            forall|j: int| 0 <= j < k ==> values_of(#[trigger] kslivers@[j].shared_values@) == values_of(first@),
        decreases kslivers@.len() - k,
    {
        if !same_values(first, &kslivers[k].shared_values) {
            assert(!slivers_consistent(kslivers@)) by {
                let j = k as int;
                assert(values_of(kslivers@[0].shared_values@) != values_of(kslivers@[j].shared_values@));
            }
            return Err(TpreError::InconsistentShares);
        }
        k += 1;
    }
    let shares = kslivers[0].reencryption_key_parts.len();
    let mut kfrags: Vec<KeyFrag> = Vec::new();
    let mut i: usize = 0;
    while i < shares
        invariant
            i <= shares,
            shares == kslivers@[0].reencryption_key_parts@.len(),
            first == kslivers@[0].shared_values,
            kslivers@[0].wf(),
            forall|j: int| 0 <= j < kslivers@.len() ==> values_of(#[trigger] kslivers@[j].shared_values@) == values_of(first@),
            forall|j: int| 0 <= j < kslivers@.len() ==> (#[trigger] kslivers@[j]).wf(),
            kfrags@.len() == i,
            forall|t: int| 0 <= t < i ==> (#[trigger] kfrags@[t]).shared_value@ == values_of(first@)[t],
            forall|t: int| 0 <= t < i ==> (#[trigger] kfrags@[t]).point@ == summed_part(kslivers@, t, kslivers@.len() as int),
        decreases shares - i,
    {
        let mut point = g2_identity();
        let mut k: usize = 0;
        while k < kslivers.len()
            invariant
                k <= kslivers@.len(),
                i < shares,
                forall|j: int| 0 <= j < kslivers@.len() ==> values_of(#[trigger] kslivers@[j].shared_values@) == values_of(first@),
                forall|j: int| 0 <= j < kslivers@.len() ==> (#[trigger] kslivers@[j]).wf(),
                first@.len() == shares,
                point@ == summed_part(kslivers@, i as int, k as int),
                g2_decodes(point@),
            decreases kslivers@.len() - k,
        {
            assert(values_of(kslivers@[k as int].shared_values@).len() == values_of(first@).len());
            kslivers[k].reencryption_key_parts[i].check_valid();
            point = g2_add(&point, &kslivers[k].reencryption_key_parts[i]);
            k += 1;
        }
        kfrags.push(KeyFrag { shared_value: first[i], point });
        i += 1;
    }
    proof {
        assert forall|j: int, l: int|
            0 <= j < kslivers@.len() && 0 <= l < kslivers@.len() implies values_of(
                #[trigger] kslivers@[j].shared_values@,
            ) == values_of(#[trigger] kslivers@[l].shared_values@) by {}
    }
    Ok(kfrags)
}

} // verus!

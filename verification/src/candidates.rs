//! Candidate generation: enumerating the achievable primary mixtures.
//!
//! With `n` primaries and a per-axis resolution `r`, every combination of
//! per-primary blend fractions is enumerated from a mixed-radix counter with
//! `n` digits of base `r`: combination `k` assigns primary `j` the digit
//! `(k / r^j) % r`, read as the fraction `digit / (r - 1)` (a resolution of 1
//! assigns the single fraction 1). Combinations whose running sum of
//! fractions exceeds the ink limit are abandoned at the first offending
//! prefix. Each surviving combination is mixed subtractively: starting from
//! white, the color is multiplied component-wise by
//! `(fraction * primary + (1 - fraction) * white) / white` for each primary
//! in order.

use vstd::prelude::*;
use vstd::arithmetic::div_mod::{
    lemma_div_denominator, lemma_div_is_ordered, lemma_div_multiples_vanish,
    lemma_div_pos_is_pos, lemma_fundamental_div_mod, lemma_hoist_over_denominator,
};
use vstd::arithmetic::mul::lemma_mul_inequality;
use vstd::arithmetic::power::{
    lemma_pow0, lemma_pow1, lemma_pow_adds, lemma_pow_increases, lemma_pow_positive, pow,
};

use crate::config::{InkLimit, SeparationError};
use crate::vector::{FX_ONE, v_add, v_div_elem, v_mul_elem, v_scale, Vector3};

verus! {

/// The shared denominator of the blend fractions at a given resolution.
pub open spec fn denom(r: int) -> int {
    if r >= 2 {
        r - 1
    } else {
        1
    }
}

/// Digit `j` of combination `k` in base `r`.
pub open spec fn digit(k: int, r: int, j: nat) -> int {
    (k / pow(r, j)) % r
}

/// The fraction numerator that combination `k` assigns to primary `j`.
pub open spec fn frac_num(k: int, r: int, j: nat) -> int {
    if r >= 2 {
        digit(k, r, j)
    } else {
        1
    }
}

/// The sum of the fraction numerators of the first `j` primaries of
/// combination `k`.
pub open spec fn num_sum(k: int, r: int, j: nat) -> int
    decreases j,
{
    if j == 0 {
        0
    } else {
        num_sum(k, r, (j - 1) as nat) + frac_num(k, r, (j - 1) as nat)
    }
}

/// Whether combination `k` of `n` primaries survives the ink limit.
pub open spec fn cand_admitted(k: int, r: int, n: nat, limit: InkLimit) -> bool {
    limit.admits(num_sum(k, r, n))
}

/// A fraction numerator as a fixed-point value.
pub open spec fn frac_fx(num: int, d: int) -> int {
    (num * (FX_ONE as int)) / d
}

/// The fixed-point blend fractions of the first `j` primaries of
/// combination `k`.
pub open spec fn fracs_of(k: int, r: int, j: nat) -> Seq<i64> {
    Seq::new(j, |t: int| frac_fx(frac_num(k, r, t as nat), denom(r)) as i64)
}

/// The subtractive-mixing factor a primary contributes at fraction `f`:
/// `(f * primary + (1 - f) * white) / white`, component-wise.
pub open spec fn blend_ratio(p: Vector3, white: Vector3, f: i64) -> Vector3 {
    v_div_elem(v_add(v_scale(p, f as int), v_scale(white, FX_ONE - f)), white)
}

/// The mixed color of combination `k` after its first `j` primaries:
/// white multiplied component-wise by each primary's blend ratio in order.
pub open spec fn mix_upto(primaries: Seq<Vector3>, white: Vector3, r: int, k: int, j: nat) -> Vector3
    decreases j,
{
    if j == 0 {
        white
    } else {
        let f = frac_fx(frac_num(k, r, (j - 1) as nat), denom(r)) as i64;
        v_mul_elem(
            mix_upto(primaries, white, r, k, (j - 1) as nat),
            blend_ratio(primaries[j - 1], white, f),
        )
    }
}

/// The model of the candidate built from combination `k`: its mixed color
/// and its full fraction vector.
pub open spec fn cand_model_of(primaries: Seq<Vector3>, white: Vector3, r: int, k: int) -> (
    Vector3,
    Seq<i64>,
) {
    (
        mix_upto(primaries, white, r, k, primaries.len()),
        fracs_of(k, r, primaries.len()),
    )
}

/// The models of the candidates surviving from the first `k` combinations,
/// in combination order.
pub open spec fn gen_upto(
    primaries: Seq<Vector3>,
    white: Vector3,
    r: int,
    limit: InkLimit,
    k: nat,
) -> Seq<(Vector3, Seq<i64>)>
    decreases k,
{
    if k == 0 {
        Seq::empty()
    } else {
        let rest = gen_upto(primaries, white, r, limit, (k - 1) as nat);
        if cand_admitted(k - 1, r, primaries.len(), limit) {
            rest.push(cand_model_of(primaries, white, r, k - 1))
        } else {
            rest
        }
    }
}

/// The full candidate set: the survivors of all `r^n` combinations, in
/// combination order.
pub open spec fn spec_candidates(
    primaries: Seq<Vector3>,
    white: Vector3,
    r: int,
    limit: InkLimit,
) -> Seq<(Vector3, Seq<i64>)> {
    gen_upto(primaries, white, r, limit, pow(r, primaries.len()) as nat)
}

/// One achievable mixture: the resulting mixed color and the fixed-point
/// blend fraction of each primary, in primary order.
#[derive(Clone, Debug)]
pub struct Candidate {
    /// The mixed ("secondary") color, in the space the primaries were given
    /// in.
    pub color: Vector3,
    /// One fixed-point blend fraction per primary, each in `[0, FX_ONE]`.
    pub fractions: Vec<i64>,
}

impl View for Candidate {
    type V = (Vector3, Seq<i64>);

    open spec fn view(&self) -> (Vector3, Seq<i64>) {
        (self.color, self.fractions@)
    }
}

/// The models of a sequence of candidates.
pub open spec fn cand_models(s: Seq<Candidate>) -> Seq<(Vector3, Seq<i64>)> {
    s.map_values(|c: Candidate| c@)
}

/// A candidate model is well formed for `n` primaries when it carries one
/// fraction per primary, each within the fixed-point unit range.
pub open spec fn cand_wf(m: (Vector3, Seq<i64>), n: nat) -> bool {
    &&& m.1.len() == n
    &&& forall|t: int| 0 <= t < n ==> 0 <= #[trigger] m.1[t] <= FX_ONE
}

/// The sum of a sequence of fixed-point fractions.
pub open spec fn frac_total(s: Seq<i64>) -> int
    decreases s.len(),
{
    if s.len() == 0 {
        0
    } else {
        frac_total(s.drop_last()) + s.last()
    }
}

/// `pow` is monotone in its base over the nonnegative integers.
pub proof fn lemma_pow_nonneg(b: int, e: nat)
    requires
        b >= 0,
    ensures
        pow(b, e) >= 0,
    decreases e,
{
    reveal(pow);
    if e > 0 {
        lemma_pow_nonneg(b, (e - 1) as nat);
        assert(b * pow(b, (e - 1) as nat) >= 0) by (nonlinear_arith)
            requires
                b >= 0,
                pow(b, (e - 1) as nat) >= 0,
        ;
    }
}

/// Raising a larger base to the same power yields a value at least as large.
pub proof fn lemma_pow_base_le(a: int, b: int, e: nat)
    requires
        0 <= a <= b,
    ensures
        pow(a, e) <= pow(b, e),
    decreases e,
{
    reveal(pow);
    if e > 0 {
        lemma_pow_base_le(a, b, (e - 1) as nat);
        lemma_pow_nonneg(a, (e - 1) as nat);
        lemma_pow_nonneg(b, (e - 1) as nat);
        assert(a * pow(a, (e - 1) as nat) <= b * pow(b, (e - 1) as nat)) by (nonlinear_arith)
            requires
                0 <= a <= b,
                0 <= pow(a, (e - 1) as nat) <= pow(b, (e - 1) as nat),
        ;
    }
}

/// One raised to any power is one.
pub proof fn lemma_pow_one(e: nat)
    ensures
        pow(1, e) == 1,
    decreases e,
{
    reveal(pow);
    if e > 0 {
        lemma_pow_one((e - 1) as nat);
    }
}

/// Longer prefixes of a combination have sums at least as large.
pub proof fn lemma_num_sum_monotone(k: int, r: int, j1: nat, j2: nat)
    requires
        0 <= k,
        1 <= r,
        j1 <= j2,
    ensures
        num_sum(k, r, j1) <= num_sum(k, r, j2),
    decreases j2,
{
    if j1 < j2 {
        lemma_num_sum_monotone(k, r, j1, (j2 - 1) as nat);
        lemma_frac_num_nonneg(k, r, (j2 - 1) as nat);
    }
}

/// Fraction numerators are nonnegative and at most the denominator.
pub proof fn lemma_frac_num_nonneg(k: int, r: int, j: nat)
    requires
        0 <= k,
        1 <= r,
    ensures
        0 <= frac_num(k, r, j) <= denom(r),
{
    if r >= 2 {
        lemma_pow_positive(r, j);
        lemma_div_pos_is_pos(k, pow(r, j));
    }
}

/// A fraction numerator within the denominator maps to a fixed-point value
/// within the unit range.
pub proof fn lemma_frac_fx_bounds(num: int, d: int)
    requires
        0 <= num <= d,
        1 <= d,
    ensures
        0 <= frac_fx(num, d) <= FX_ONE as int,
{
    lemma_div_pos_is_pos(num * (FX_ONE as int), d);
    lemma_mul_inequality(num, d, FX_ONE as int);
    lemma_div_is_ordered(num * (FX_ONE as int), d * (FX_ONE as int), d);
    lemma_div_multiples_vanish(FX_ONE as int, d);
    assert(d * (FX_ONE as int) == (FX_ONE as int) * d) by (nonlinear_arith);
}

/// Division by a positive denominator distributes over addition of
/// nonnegative terms, up to rounding: the sum of the quotients is at most
/// the quotient of the sum.
proof fn lemma_div_sum_le(a: int, b: int, d: int)
    requires
        0 <= a,
        0 <= b,
        1 <= d,
    ensures
        a / d + b / d <= (a + b) / d,
{
    lemma_fundamental_div_mod(a, d);
    lemma_hoist_over_denominator(a % d + b, a / d, d as nat);
    lemma_div_pos_is_pos(a % d + b, d);
    lemma_div_is_ordered(b, a % d + b, d);
    assert((a / d) * d == d * (a / d)) by (nonlinear_arith);
}

/// The sum of the stored fixed-point fractions of a combination's first `j`
/// primaries is bounded by the fixed-point value of their numerator sum.
pub proof fn lemma_frac_total_bound(k: int, r: int, j: nat)
    requires
        0 <= k,
        1 <= r,
    ensures
        0 <= frac_total(fracs_of(k, r, j)) <= frac_fx(num_sum(k, r, j), denom(r)),
    decreases j,
{
    let d = denom(r);
    if j == 0 {
        assert(fracs_of(k, r, 0).len() == 0);
    } else {
        let prev = fracs_of(k, r, (j - 1) as nat);
        let cur = fracs_of(k, r, j);
        lemma_frac_total_bound(k, r, (j - 1) as nat);
        assert(cur.drop_last() =~= prev);
        lemma_frac_num_nonneg(k, r, (j - 1) as nat);
        lemma_frac_fx_bounds(frac_num(k, r, (j - 1) as nat), d);
        lemma_num_sum_monotone(k, r, 0, (j - 1) as nat);
        lemma_mul_inequality(0, num_sum(k, r, (j - 1) as nat), FX_ONE as int);
        lemma_mul_inequality(0, frac_num(k, r, (j - 1) as nat), FX_ONE as int);
        lemma_div_sum_le(
            num_sum(k, r, (j - 1) as nat) * (FX_ONE as int),
            frac_num(k, r, (j - 1) as nat) * (FX_ONE as int),
            d,
        );
        assert((num_sum(k, r, (j - 1) as nat) + frac_num(k, r, (j - 1) as nat)) * (FX_ONE as int)
            == num_sum(k, r, (j - 1) as nat) * (FX_ONE as int) + frac_num(
            k,
            r,
            (j - 1) as nat,
        ) * (FX_ONE as int)) by (nonlinear_arith);
    }
}

/// Every candidate the generator produces respects the configured ink
/// limit: with a scaled limit `s`, the sum of its stored fixed-point blend
/// fractions is at most the fixed-point value of `s` over the fraction
/// denominator.
pub proof fn lemma_ink_limit_respected(
    primaries: Seq<Vector3>,
    white: Vector3,
    r: int,
    limit: InkLimit,
    k: nat,
    i: int,
)
    requires
        1 <= r,
        0 <= i < gen_upto(primaries, white, r, limit, k).len(),
    ensures
        match limit {
            InkLimit::Unbounded => true,
            InkLimit::Scaled(s) => frac_total(gen_upto(primaries, white, r, limit, k)[i].1)
                <= frac_fx(s as int, denom(r)),
        },
    decreases k,
{
    let cur = gen_upto(primaries, white, r, limit, k);
    let rest = gen_upto(primaries, white, r, limit, (k - 1) as nat);
    if i < rest.len() {
        lemma_ink_limit_respected(primaries, white, r, limit, (k - 1) as nat, i);
    } else {
        let n = primaries.len();
        lemma_frac_total_bound(k - 1, r, n);
        match limit {
            InkLimit::Unbounded => {},
            InkLimit::Scaled(s) => {
                lemma_mul_inequality(num_sum(k - 1, r, n), s as int, FX_ONE as int);
                lemma_div_is_ordered(
                    num_sum(k - 1, r, n) * (FX_ONE as int),
                    (s as int) * (FX_ONE as int),
                    denom(r),
                );
            },
        }
    }
}

/// Every candidate the generator produces is well formed: one fraction per
/// primary, each within the fixed-point unit range.
pub proof fn lemma_candidates_wf(
    primaries: Seq<Vector3>,
    white: Vector3,
    r: int,
    limit: InkLimit,
    k: nat,
    i: int,
)
    requires
        1 <= r,
        0 <= i < gen_upto(primaries, white, r, limit, k).len(),
    ensures
        cand_wf(gen_upto(primaries, white, r, limit, k)[i], primaries.len()),
    decreases k,
{
    let rest = gen_upto(primaries, white, r, limit, (k - 1) as nat);
    if i < rest.len() {
        lemma_candidates_wf(primaries, white, r, limit, (k - 1) as nat, i);
    } else {
        let n = primaries.len();
        assert forall|t: int| 0 <= t < n implies 0 <= #[trigger] fracs_of(k - 1, r, n)[t]
            <= FX_ONE by {
            lemma_frac_num_nonneg(k - 1, r, t as nat);
            lemma_frac_fx_bounds(frac_num(k - 1, r, t as nat), denom(r));
        }
    }
}

/// The all-zero combination has a zero fraction sum at any resolution of
/// at least two.
proof fn lemma_num_sum_zero(r: int, j: nat)
    requires
        2 <= r,
    ensures
        num_sum(0, r, j) == 0,
    decreases j,
{
    if j > 0 {
        lemma_num_sum_zero(r, (j - 1) as nat);
        lemma_pow_positive(r, (j - 1) as nat);
        assert(0int / pow(r, (j - 1) as nat) == 0);
        assert(digit(0, r, (j - 1) as nat) == 0);
    }
}

/// Surviving candidates only accumulate as the enumeration proceeds.
proof fn lemma_gen_len_monotone(
    primaries: Seq<Vector3>,
    white: Vector3,
    r: int,
    limit: InkLimit,
    k1: nat,
    k2: nat,
)
    requires
        k1 <= k2,
    ensures
        gen_upto(primaries, white, r, limit, k1).len() <= gen_upto(
            primaries,
            white,
            r,
            limit,
            k2,
        ).len(),
    decreases k2,
{
    if k1 < k2 {
        lemma_gen_len_monotone(primaries, white, r, limit, k1, (k2 - 1) as nat);
    }
}

/// At any resolution of at least two the candidate set is never empty:
/// the all-zero combination survives every ink limit.
pub proof fn lemma_candidates_nonempty(
    primaries: Seq<Vector3>,
    white: Vector3,
    r: int,
    limit: InkLimit,
)
    requires
        2 <= r,
        1 <= primaries.len(),
    ensures
        spec_candidates(primaries, white, r, limit).len() >= 1,
{
    lemma_num_sum_zero(r, primaries.len());
    assert(cand_admitted(0, r, primaries.len(), limit));
    lemma_pow_positive(r, primaries.len());
    assert(gen_upto(primaries, white, r, limit, 1).len() >= 1);
    lemma_gen_len_monotone(primaries, white, r, limit, 1, pow(r, primaries.len()) as nat);
}

/// Re-running candidate generation on identical inputs yields candidate
/// sets with identical models — in particular, of identical size — and
/// cell lookups against them are therefore deterministic for a fixed query.
pub proof fn lemma_rerun_identical(
    c1: Seq<Candidate>,
    c2: Seq<Candidate>,
    primaries: Seq<Vector3>,
    white: Vector3,
    r: int,
    limit: InkLimit,
)
    requires
        cand_models(c1) == spec_candidates(primaries, white, r, limit),
        cand_models(c2) == spec_candidates(primaries, white, r, limit),
    ensures
        c1.len() == c2.len(),
        forall|i: int| 0 <= i < c1.len() ==> #[trigger] c1[i]@ == c2[i]@,
{
    assert(cand_models(c1).len() == c1.len());
    assert(cand_models(c2).len() == c2.len());
    assert forall|i: int| 0 <= i < c1.len() implies #[trigger] c1[i]@ == c2[i]@ by {
        assert(cand_models(c1)[i] == c1[i]@);
        assert(cand_models(c2)[i] == c2[i]@);
    }
}

/// With a scaled limit no larger than the fraction denominator — a real
/// ink limit of at most one — every candidate's stored fixed-point
/// fractions sum to at most the fixed-point one.
pub proof fn lemma_ink_limit_unit(
    primaries: Seq<Vector3>,
    white: Vector3,
    r: int,
    s: u64,
    k: nat,
    i: int,
)
    requires
        1 <= r,
        s as int <= denom(r),
        0 <= i < gen_upto(primaries, white, r, InkLimit::Scaled(s), k).len(),
    ensures
        frac_total(gen_upto(primaries, white, r, InkLimit::Scaled(s), k)[i].1) <= FX_ONE as int,
{
    lemma_ink_limit_respected(primaries, white, r, InkLimit::Scaled(s), k, i);
    lemma_frac_fx_bounds(s as int, denom(r));
}

/// Whether `base ^ exponent >= target`.
fn pow_geq(base: usize, n: usize, target: usize) -> (b: bool)
    requires
        1 <= base,
        1 <= n,
        1 <= target,
    ensures
        b == (pow(base as int, n as nat) >= target as int),
{
    if target <= 1 {
        proof {
            lemma_pow_positive(base as int, n as nat);
        }
        return true;
    }
    let mut acc: u128 = 1;
    let mut i: usize = 0;
    proof {
        lemma_pow0(base as int);
    }
    while i < n
        invariant
            1 <= base,
            1 <= n,
            2 <= target,
            i <= n,
            acc as int == pow(base as int, i as nat),
            acc < target as u128,
        decreases n - i,
    {
        proof {
            assert(acc * (base as u128) < 0x1_0000_0000_0000_0000u128
                * 0x1_0000_0000_0000_0000u128) by (nonlinear_arith)
                requires
                    acc < 0x1_0000_0000_0000_0000u128,
                    (base as u128) < 0x1_0000_0000_0000_0000u128,
            ;
        }
        let next: u128 = acc * (base as u128);
        assert(next as int == pow(base as int, (i + 1) as nat)) by {
            lemma_pow_adds(base as int, i as nat, 1);
            lemma_pow1(base as int);
        }
        if next >= target as u128 {
            proof {
                lemma_pow_increases(base as nat, (i + 1) as nat, n as nat);
            }
            return true;
        }
        acc = next;
        i += 1;
    }
    false
}

/// The per-axis resolution: the smallest number of evenly spaced fraction
/// values per primary whose combination count reaches the target candidate
/// count.
pub fn resolution_for(n_primaries: usize, target: usize) -> (r: usize)
    requires
        1 <= n_primaries,
        1 <= target,
    ensures
        1 <= r <= target,
        pow(r as int, n_primaries as nat) >= target as int,
        forall|s: int| 1 <= s < r ==> pow(s, n_primaries as nat) < target as int,
{
    let mut lo: usize = 1;
    let mut hi: usize = target;
    proof {
        lemma_pow1(target as int);
        lemma_pow_increases(target as nat, 1, n_primaries as nat);
    }
    while lo < hi
        invariant
            1 <= n_primaries,
            1 <= target,
            1 <= lo <= hi <= target,
            pow(hi as int, n_primaries as nat) >= target as int,
            forall|s: int| 1 <= s < lo ==> pow(s, n_primaries as nat) < target as int,
        decreases hi - lo,
    {
        let mid = lo + (hi - lo) / 2;
        if pow_geq(mid, n_primaries, target) {
            hi = mid;
        } else {
            proof {
                assert forall|s: int| 1 <= s < mid + 1 implies pow(s, n_primaries as nat)
                    < target as int by {
                    lemma_pow_base_le(s, mid as int, n_primaries as nat);
                }
            }
            lo = mid + 1;
        }
    }
    lo
}

/// `base ^ exponent` when it fits a `usize`.
fn checked_pow_usize(base: usize, n: usize) -> (out: Option<usize>)
    requires
        1 <= base,
        1 <= n,
    ensures
        match out {
            Some(c) => c as int == pow(base as int, n as nat),
            None => pow(base as int, n as nat) > usize::MAX as int,
        },
{
    let mut acc: u128 = 1;
    let mut i: usize = 0;
    proof {
        lemma_pow0(base as int);
    }
    while i < n
        invariant
            1 <= base,
            1 <= n,
            i <= n,
            acc as int == pow(base as int, i as nat),
            acc <= usize::MAX as u128,
        decreases n - i,
    {
        proof {
            assert(acc * (base as u128) < 0x1_0000_0000_0000_0000u128
                * 0x1_0000_0000_0000_0000u128) by (nonlinear_arith)
                requires
                    acc < 0x1_0000_0000_0000_0000u128,
                    (base as u128) < 0x1_0000_0000_0000_0000u128,
            ;
        }
        let next: u128 = acc * (base as u128);
        assert(next as int == pow(base as int, (i + 1) as nat)) by {
            lemma_pow_adds(base as int, i as nat, 1);
            lemma_pow1(base as int);
        }
        if next > usize::MAX as u128 {
            proof {
                lemma_pow_increases(base as nat, (i + 1) as nat, n as nat);
            }
            return None;
        }
        acc = next;
        i += 1;
    }
    Some(acc as usize)
}

/// Enumerates all fraction combinations of the given primaries at the given
/// resolution, prunes those exceeding the ink limit, and mixes each
/// survivor's color. The primaries and the white point are expected in the
/// comparison color space; the candidates come back in combination order.
pub fn generate_candidates(
    primaries: &Vec<Vector3>,
    white: Vector3,
    resolution: usize,
    limit: InkLimit,
) -> (out: Result<Vec<Candidate>, SeparationError>)
    requires
        1 <= resolution,
    ensures
        match out {
            Ok(cands) => {
                &&& 1 <= primaries@.len()
                &&& pow(resolution as int, primaries@.len() as nat) <= usize::MAX as int
                &&& cand_models(cands@) == spec_candidates(
                    primaries@,
                    white,
                    resolution as int,
                    limit,
                )
            },
            Err(e) => {
                &&& (primaries@.len() == 0 || pow(resolution as int, primaries@.len() as nat)
                    > usize::MAX as int)
                &&& (e == SeparationError::NoPrimaries <==> primaries@.len() == 0)
                &&& (e == SeparationError::CandidateCountOverflow <==> (primaries@.len() >= 1
                    && pow(resolution as int, primaries@.len() as nat) > usize::MAX as int))
            },
        },
{
    let n = primaries.len();
    if n == 0 {
        return Err(SeparationError::NoPrimaries);
    }
    let count = match checked_pow_usize(resolution, n) {
        Some(c) => c,
        None => {
            return Err(SeparationError::CandidateCountOverflow);
        },
    };
    let den: u64 = if resolution >= 2 {
        (resolution as u64) - 1
    } else {
        1
    };
    let ghost r = resolution as int;
    let mut cands: Vec<Candidate> = Vec::new();
    let mut k: usize = 0;
    while k < count
        invariant
            1 <= resolution,
            n == primaries@.len(),
            1 <= n,
            count as int == pow(r, n as nat),
            r == resolution as int,
            den as int == denom(r),
            k <= count,
            cand_models(cands@) == gen_upto(primaries@, white, r, limit, k as nat),
        decreases count - k,
    {
        let mut number: usize = k;
        let mut color: Vector3 = white;
        let mut fracs: Vec<i64> = Vec::new();
        let mut total: u128 = 0;
        let mut admitted: bool = true;
        let mut j: usize = 0;
        proof {
            lemma_pow0(r);
        }
        while j < n && admitted
            invariant
                1 <= resolution,
                n == primaries@.len(),
                1 <= n,
                r == resolution as int,
                den as int == denom(r),
                k < count,
                count as int == pow(r, n as nat),
                j <= n,
                admitted ==> number as int == k as int / pow(r, j as nat),
                admitted ==> total as int == num_sum(k as int, r, j as nat),
                admitted ==> total as int <= (j as int) * (den as int),
                admitted ==> limit.admits(total as int),
                admitted ==> fracs@ == fracs_of(k as int, r, j as nat),
                admitted ==> color == mix_upto(primaries@, white, r, k as int, j as nat),
                !admitted ==> !cand_admitted(k as int, r, n as nat, limit),
            decreases n - j,
        {
            proof {
                lemma_pow_positive(r, j as nat);
                lemma_frac_num_nonneg(k as int, r, j as nat);
                assert((j as int) * (den as int) + (den as int) == ((j as int) + 1) * (
                den as int)) by (nonlinear_arith);
                assert(((j as int) + 1) * (den as int) < 0x1_0000_0000_0000_0000i128
                    * 0x1_0000_0000_0000_0000i128) by (nonlinear_arith)
                    requires
                        0 <= (j as int) + 1 < 0x1_0000_0000_0000_0000i128,
                        0 <= (den as int) < 0x1_0000_0000_0000_0000i128,
                ;
            }
            let d: usize = if resolution >= 2 {
                number % resolution
            } else {
                0
            };
            let num: u64 = if resolution >= 2 {
                d as u64
            } else {
                1u64
            };
            assert(num as int == frac_num(k as int, r, j as nat));
            total = total + num as u128;
            if !limit.admits_exec(total) {
                proof {
                    lemma_num_sum_monotone(k as int, r, (j + 1) as nat, n as nat);
                }
                admitted = false;
            } else {
                let fnum: u128 = (num as u128) * (FX_ONE as u128) / (den as u128);
                proof {
                    lemma_frac_fx_bounds(num as int, den as int);
                }
                let f: i64 = fnum as i64;
                let one_minus: i64 = FX_ONE - f;
                let p = primaries[j];
                let ratio = p.scale(f).add(white.scale(one_minus)).div_elem(white);
                color = color.mul_elem(ratio);
                fracs.push(f);
                proof {
                    assert(fracs@ =~= fracs_of(k as int, r, (j + 1) as nat));
                }
                proof {
                    assert(pow(r, (j + 1) as nat) == r * pow(r, j as nat)) by {
                        reveal(pow);
                    }
                    lemma_pow_positive(r, j as nat);
                    lemma_pow_positive(r, (j + 1) as nat);
                }
                if resolution >= 2 {
                    proof {
                        lemma_div_denominator(k as int, pow(r, j as nat), r);
                    }
                    number = number / resolution;
                } else {
                    proof {
                        lemma_pow_one(j as nat);
                        lemma_pow_one((j + 1) as nat);
                    }
                }
            }
            j += 1;
        }
        if admitted {
            let cand = Candidate { color, fractions: fracs };
            cands.push(cand);
            proof {
                assert(cand_models(cands@) =~= gen_upto(
                    primaries@,
                    white,
                    r,
                    limit,
                    (k + 1) as nat,
                ));
            }
        } else {
            proof {
                assert(cand_models(cands@) =~= gen_upto(
                    primaries@,
                    white,
                    r,
                    limit,
                    (k + 1) as nat,
                ));
            }
        }
        k += 1;
    }
    Ok(cands)
}

} // verus!

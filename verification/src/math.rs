//! Fixed-point weight arithmetic.
//!
//! Weights are integers scaled by `SCALE`: the weight one is `SCALE`, and a
//! normalized weight vector holds entries in `[0, SCALE]`.  Raw weights may
//! be negative or otherwise invalid; `normalize` clamps such entries to zero
//! and reports an undefined distribution (every raw entry non-positive)
//! through its return value instead of poisoning the vector.  Entropy is
//! measured in bits, likewise scaled by `SCALE`.

use vstd::prelude::*;
use vstd::arithmetic::power2::pow2;

verus! {

/// The fixed-point weight of one: weights live in `[0, SCALE]` once
/// normalized.
pub const SCALE: i64 = 65536;

/// The largest state count the weight arithmetic is sized for.
pub const MAX_STATES: usize = 1024;

/// The largest raw weight magnitude the weight arithmetic is sized for:
/// products of a normalized weight and an update weight stay below it.
pub const MAX_RAW_WEIGHT: i64 = 0x4000_0000_0000;

/// The largest magnitude an initial or update weight may have.
pub const MAX_UPDATE_WEIGHT: i64 = 0x4000_0000;

/// A non-positive raw weight counts as zero.
pub open spec fn clamp0(v: int) -> int {
    if v > 0 {
        v
    } else {
        0
    }
}

/// The sum of a raw weight vector, counting non-positive entries as zero.
pub open spec fn sum_clamped(s: Seq<i64>) -> int
    decreases s.len(),
{
    if s.len() == 0 {
        0
    } else {
        sum_clamped(s.drop_last()) + clamp0(s.last() as int)
    }
}

/// The sum of a sequence of integers.
pub open spec fn sum_int(s: Seq<int>) -> int
    decreases s.len(),
{
    if s.len() == 0 {
        0
    } else {
        sum_int(s.drop_last()) + s.last()
    }
}

/// The clamped sum of a sequence of unbounded integers: the form the raw
/// products of a weight vector and an update vector take.
pub open spec fn sum_clamped_int(s: Seq<int>) -> int
    decreases s.len(),
{
    if s.len() == 0 {
        0
    } else {
        sum_clamped_int(s.drop_last()) + clamp0(s.last())
    }
}

/// The two clamped sums agree whenever the entries do.
pub proof fn lemma_sum_clamped_int_matches(v: Seq<i64>, w: Seq<int>)
    requires
        v.len() == w.len(),
        forall|i: int| 0 <= i < v.len() ==> #[trigger] v[i] as int == w[i],
    ensures
        sum_clamped(v) == sum_clamped_int(w),
    decreases v.len(),
{
    if v.len() > 0 {
        lemma_sum_clamped_int_matches(v.drop_last(), w.drop_last());
    }
}

/// What `normalize` leaves at each index when the clamped sum is positive.
pub open spec fn normalized_at(s: Seq<i64>, i: int) -> int {
    clamp0(s[i] as int) * SCALE / sum_clamped(s)
}

/// The whole vector `normalize` leaves behind when the clamped sum is
/// positive.
pub open spec fn normalized_seq(s: Seq<i64>) -> Seq<int> {
    Seq::new(s.len(), |i: int| normalized_at(s, i))
}

pub proof fn lemma_sum_clamped_nonneg(s: Seq<i64>)
    ensures
        sum_clamped(s) >= 0,
    decreases s.len(),
{
    if s.len() > 0 {
        lemma_sum_clamped_nonneg(s.drop_last());
    }
}

/// Each clamped entry is at most the clamped sum.
pub proof fn lemma_sum_clamped_elem(s: Seq<i64>, i: int)
    requires
        0 <= i < s.len(),
    ensures
        clamp0(s[i] as int) <= sum_clamped(s),
    decreases s.len(),
{
    if i == s.len() - 1 {
        lemma_sum_clamped_nonneg(s.drop_last());
    } else {
        lemma_sum_clamped_elem(s.drop_last(), i);
    }
}

/// The clamped sum is positive exactly when some entry is positive.
pub proof fn lemma_sum_clamped_pos_iff(s: Seq<i64>)
    ensures
        sum_clamped(s) > 0 <==> exists|i: int| 0 <= i < s.len() && s[i] > 0,
    decreases s.len(),
{
    if s.len() > 0 {
        lemma_sum_clamped_pos_iff(s.drop_last());
        lemma_sum_clamped_nonneg(s.drop_last());
        if s.last() > 0 {
            assert(s[s.len() - 1] > 0);
        } else if sum_clamped(s.drop_last()) > 0 {
            let j = choose|i: int| 0 <= i < s.drop_last().len() && s.drop_last()[i] > 0;
            assert(s[j] > 0);
        } else if exists|i: int| 0 <= i < s.len() && s[i] > 0 {
            let j = choose|i: int| 0 <= i < s.len() && s[i] > 0;
            assert(j < s.len() - 1 ==> s.drop_last()[j] > 0);
        }
    }
}

/// Normalizing scales the clamped entries so that they sum to `SCALE`, up
/// to one unit of rounding loss per entry: the sum of the result lies in
/// `(SCALE - n, SCALE]` for `n` entries.  This is the fixed-point form of a
/// distribution summing to one.
pub proof fn lemma_normalize_sum_bounds(s: Seq<i64>)
    requires
        sum_clamped(s) > 0,
    ensures
        SCALE - s.len() < sum_int(normalized_seq(s)),
        sum_int(normalized_seq(s)) <= SCALE,
{
    let t = sum_clamped(s);
    lemma_normalize_sum_partial(s, s.len() as int);
    assert(s.subrange(0, s.len() as int) =~= s);
    let q = sum_int(normalized_seq(s).subrange(0, s.len() as int));
    assert(normalized_seq(s).subrange(0, s.len() as int) =~= normalized_seq(s));
    // t * q <= SCALE * t <= t * q + n * (t - 1), so SCALE - n < q <= SCALE.
    let ln = s.len() as int;
    if ln == 0 {
        assert(t == 0);
    }
    assert(q <= SCALE) by (nonlinear_arith)
        requires
            t > 0,
            t * q <= SCALE * t,
    ;
    assert(SCALE - ln < q) by (nonlinear_arith)
        requires
            t > 0,
            ln >= 1,
            SCALE * t <= t * q + ln * (t - 1),
    ;
}

/// The prefix form of the rounding argument behind
/// `lemma_normalize_sum_bounds`: scaling each clamped entry of a prefix by
/// `SCALE / t` keeps the scaled prefix sum within one `t` per entry of the
/// exact value.
proof fn lemma_normalize_sum_partial(s: Seq<i64>, n: int)
    requires
        sum_clamped(s) > 0,
        0 <= n <= s.len(),
    ensures
        sum_clamped(s) * sum_int(normalized_seq(s).subrange(0, n)) <= SCALE * sum_clamped(
            s.subrange(0, n),
        ),
        SCALE * sum_clamped(s.subrange(0, n)) <= sum_clamped(s) * sum_int(
            normalized_seq(s).subrange(0, n),
        ) + n * (sum_clamped(s) - 1),
    decreases n,
{
    let t = sum_clamped(s);
    if n == 0 {
        assert(normalized_seq(s).subrange(0, 0) =~= Seq::<int>::empty());
        assert(s.subrange(0, 0) =~= Seq::<i64>::empty());
    } else {
        lemma_normalize_sum_partial(s, n - 1);
        let qs = normalized_seq(s).subrange(0, n);
        let cs = s.subrange(0, n);
        assert(qs.drop_last() =~= normalized_seq(s).subrange(0, n - 1));
        assert(cs.drop_last() =~= s.subrange(0, n - 1));
        let c = clamp0(s[n - 1] as int);
        let q = normalized_at(s, n - 1);
        assert(cs.last() == s[n - 1]);
        assert(qs.last() == q);
        vstd::arithmetic::div_mod::lemma_fundamental_div_mod(c * SCALE, t);
        vstd::arithmetic::div_mod::lemma_mod_bound(c * SCALE, t);
        let qprev = sum_int(normalized_seq(s).subrange(0, n - 1));
        let cprev = sum_clamped(s.subrange(0, n - 1));
        assert(t * (qprev + q) <= SCALE * (cprev + c) && SCALE * (cprev + c) <= t * (qprev + q)
            + n * (t - 1)) by (nonlinear_arith)
            requires
                t > 0,
                t * qprev <= SCALE * cprev,
                SCALE * cprev <= t * qprev + (n - 1) * (t - 1),
                c * SCALE == t * q + (c * SCALE) % t,
                0 <= (c * SCALE) % t < t,
        ;
    }
}

/// Two sequences with equal non-negative entries have the same sum.
proof fn lemma_sum_clamped_matches(v: Seq<i64>, w: Seq<int>)
    requires
        v.len() == w.len(),
        forall|i: int| 0 <= i < v.len() ==> #[trigger] v[i] as int == w[i],
        forall|i: int| 0 <= i < v.len() ==> #[trigger] v[i] >= 0,
    ensures
        sum_clamped(v) == sum_int(w),
    decreases v.len(),
{
    if v.len() > 0 {
        lemma_sum_clamped_matches(v.drop_last(), w.drop_last());
    }
}

/// The mantissa of a positive fixed-point value: the value halved until it
/// lies in `[SCALE, 2 * SCALE)`, that is, in `[1, 2)`.
pub open spec fn mantissa(y: int) -> int
    decreases y,
{
    if y >= 2 * SCALE {
        mantissa(y / 2)
    } else {
        y
    }
}

/// How many halvings it takes to bring a fixed-point value into `[1, 2)`:
/// the integer part of its base-two logarithm.
pub open spec fn exponent(y: int) -> int
    decreases y,
{
    if y >= 2 * SCALE {
        exponent(y / 2) + 1
    } else {
        0
    }
}

/// The first `i` binary digits of the fractional part of the base-two
/// logarithm of a mantissa, most significant digit first, computed by
/// repeated fixed-point squaring.
pub open spec fn frac_bits(y: int, i: nat) -> int
    decreases i,
{
    if i == 0 {
        0
    } else {
        let y2 = (y * y) / (SCALE as int);
        if y2 >= 2 * SCALE {
            pow2((i - 1) as nat) + frac_bits(y2 / 2, (i - 1) as nat)
        } else {
            frac_bits(y2, (i - 1) as nat)
        }
    }
}

/// The fixed-point base-two logarithm of `x / SCALE`: sixteen fractional
/// bits, exact whenever `x / SCALE` is a power of two.
pub open spec fn log2_approx(x: int) -> int {
    exponent(x) * SCALE + frac_bits(mantissa(x), 16)
}

/// One summand of the Shannon entropy: `- p * log2(p)` for a weight `p` of
/// a normalized vector, with `p <= 0` contributing nothing.  Since
/// `-log2(p / SCALE) == log2(SCALE / (p / SCALE)) / SCALE`, the summand is
/// computed from the logarithm of `SCALE * SCALE / p`.
pub open spec fn term_spec(p: int) -> int {
    if p <= 0 {
        0
    } else {
        p * log2_approx(SCALE * SCALE / p) / (SCALE as int)
    }
}

/// The Shannon entropy of a normalized weight vector, in bits scaled by
/// `SCALE`: the sum of `term_spec` over the entries.
pub open spec fn entropy_spec(s: Seq<i64>) -> int {
    s.fold_left(0int, |acc: int, p: i64| acc + term_spec(p as int))
}

/// Clamps every non-positive entry to zero and divides the rest by their
/// sum, leaving each entry at `clamped * SCALE / sum`.  When every entry is
/// non-positive there is no distribution to scale: the vector becomes all
/// zero and the call reports an undefined distribution by returning false.
pub fn normalize(weights: &mut Vec<i64>) -> (ok: bool)
    requires
        old(weights)@.len() <= MAX_STATES,
        forall|i: int|
            0 <= i < old(weights)@.len() ==> #[trigger] old(weights)@[i] <= MAX_RAW_WEIGHT,
    ensures
        final(weights)@.len() == old(weights)@.len(),
        ok <==> exists|i: int| 0 <= i < old(weights)@.len() && old(weights)@[i] > 0,
        ok ==> forall|i: int|
            0 <= i < final(weights)@.len() ==> #[trigger] final(weights)@[i] == normalized_at(
                old(weights)@,
                i,
            ),
        !ok ==> forall|i: int|
            0 <= i < final(weights)@.len() ==> #[trigger] final(weights)@[i] == 0,
        forall|i: int| 0 <= i < final(weights)@.len() ==> 0 <= #[trigger] final(weights)@[i]
            <= SCALE,
        ok ==> SCALE - final(weights)@.len() < sum_clamped(final(weights)@) <= SCALE,
{
    let ghost orig = weights@;
    let n = weights.len();
    let mut sum: i64 = 0;
    let mut i: usize = 0;
    proof {
        assert(orig.subrange(0, 0) =~= Seq::<i64>::empty());
    }
    while i < n
        invariant
            n == weights@.len(),
            n == orig.len(),
            n <= MAX_STATES,
            forall|j: int| 0 <= j < n ==> #[trigger] orig[j] <= MAX_RAW_WEIGHT,
            0 <= i <= n,
            sum == sum_clamped(orig.subrange(0, i as int)),
            sum <= i * MAX_RAW_WEIGHT,
            0 <= sum,
            forall|j: int| 0 <= j < i ==> #[trigger] weights@[j] == clamp0(orig[j] as int),
            forall|j: int| i <= j < n ==> #[trigger] weights@[j] == orig[j],
        decreases n - i,
    {
        proof {
            assert(orig.subrange(0, i + 1).drop_last() =~= orig.subrange(0, i as int));
            assert(i * MAX_RAW_WEIGHT + MAX_RAW_WEIGHT == (i + 1) * MAX_RAW_WEIGHT)
                by (nonlinear_arith);
        }
        let w = weights[i];
        if w <= 0 {
            weights.set(i, 0);
        } else {
            sum = sum + w;
        }
        i = i + 1;
    }
    proof {
        assert(orig.subrange(0, n as int) =~= orig);
        lemma_sum_clamped_pos_iff(orig);
    }
    if sum == 0 {
        return false;
    }
    let mut i: usize = 0;
    while i < n
        invariant
            n == weights@.len(),
            n == orig.len(),
            n <= MAX_STATES,
            forall|j: int| 0 <= j < n ==> #[trigger] orig[j] <= MAX_RAW_WEIGHT,
            0 <= i <= n,
            0 < sum == sum_clamped(orig),
            sum <= n * MAX_RAW_WEIGHT,
            forall|j: int| 0 <= j < i ==> #[trigger] weights@[j] == normalized_at(orig, j),
            forall|j: int| 0 <= j < i ==> 0 <= #[trigger] weights@[j] <= SCALE,
            forall|j: int| i <= j < n ==> #[trigger] weights@[j] == clamp0(orig[j] as int),
        decreases n - i,
    {
        let c = weights[i];
        proof {
            lemma_sum_clamped_elem(orig, i as int);
            assert(c * SCALE <= sum * SCALE) by (nonlinear_arith)
                requires
                    0 <= c <= sum,
                    SCALE > 0,
            ;
            vstd::arithmetic::div_mod::lemma_div_is_ordered(
                c * SCALE,
                sum * SCALE,
                sum as int,
            );
            vstd::arithmetic::div_mod::lemma_div_multiples_vanish(SCALE as int, sum as int);
            assert(sum * SCALE == SCALE * sum);
            vstd::arithmetic::div_mod::lemma_div_pos_is_pos(c * SCALE, sum as int);
        }
        let scaled = ((c as u64) * (SCALE as u64)) / (sum as u64);
        weights.set(i, scaled as i64);
        i = i + 1;
    }
    proof {
        lemma_normalize_sum_bounds(orig);
        lemma_sum_clamped_matches(weights@, normalized_seq(orig));
    }
    true
}

/// Division of non-negative values, carried out in unsigned arithmetic so
/// that the machine quotient is the mathematical floor.
fn div_nn(a: i64, b: i64) -> (q: i64)
    requires
        0 <= a,
        0 < b,
    ensures
        q == a as int / b as int,
        0 <= q <= a,
{
    proof {
        vstd::arithmetic::div_mod::lemma_div_pos_is_pos(a as int, b as int);
        vstd::arithmetic::div_mod::lemma_div_nonincreasing(a as int, b as int);
    }
    ((a as u64) / (b as u64)) as i64
}

pub proof fn lemma_exponent_nonneg(y: int)
    ensures
        exponent(y) >= 0,
    decreases y,
{
    if y >= 2 * SCALE {
        lemma_exponent_nonneg(y / 2);
    }
}

pub proof fn lemma_mantissa_range(y: int)
    requires
        SCALE <= y,
    ensures
        SCALE <= mantissa(y) < 2 * SCALE,
    decreases y,
{
    if y >= 2 * SCALE {
        lemma_mantissa_range(y / 2);
    }
}

/// A value of at most `SCALE * pow2(k)` needs at most `k` halvings.
proof fn lemma_exponent_bound(y: int, k: nat)
    requires
        y <= SCALE * pow2(k),
    ensures
        exponent(y) <= k,
    decreases k,
{
    if y >= 2 * SCALE {
        vstd::arithmetic::power2::lemma_pow2_pos(k);
        if k == 0 {
            assert(pow2(0) == 1) by {
                vstd::arithmetic::power2::lemma2_to64();
            }
        } else {
            vstd::arithmetic::power2::lemma_pow2_unfold(k);
            assert(SCALE * pow2(k) == (SCALE * pow2((k - 1) as nat)) * 2) by (nonlinear_arith)
                requires
                    pow2(k) == 2 * pow2((k - 1) as nat),
            ;
            vstd::arithmetic::div_mod::lemma_div_is_ordered(
                y,
                (SCALE * pow2((k - 1) as nat)) * 2,
                2,
            );
            vstd::arithmetic::div_mod::lemma_div_by_multiple(SCALE * pow2((k - 1) as nat), 2);
            lemma_exponent_bound(y / 2, (k - 1) as nat);
        }
    }
}

/// The fixed-point base-two logarithm of `x / SCALE`, for `x / SCALE` in
/// `[1, SCALE]`: the integer part by repeated halving, sixteen fractional
/// bits by repeated squaring.
pub fn log2_fp(x: i64) -> (r: i64)
    requires
        SCALE <= x <= SCALE * SCALE,
    ensures
        r == log2_approx(x as int),
        0 <= r < 17 * SCALE,
{
    proof {
        assert(pow2(16) == 65536) by {
            vstd::arithmetic::power2::lemma2_to64();
        }
        assert(SCALE * pow2(16) == SCALE * SCALE);
        lemma_exponent_bound(x as int, 16);
        lemma_exponent_nonneg(x as int);
        lemma_mantissa_range(x as int);
    }
    let mut y = x;
    let mut e: i64 = 0;
    while y >= 2 * SCALE
        invariant
            SCALE <= y <= SCALE * SCALE,
            0 <= e,
            e + exponent(y as int) <= 16,
            exponent(x as int) == e + exponent(y as int),
            mantissa(x as int) == mantissa(y as int),
        decreases y,
    {
        proof {
            lemma_exponent_nonneg(y as int / 2);
            assert(exponent(y as int) == exponent(y as int / 2) + 1);
        }
        y = div_nn(y, 2);
        e = e + 1;
    }
    proof {
        assert(exponent(y as int) == 0);
        assert(mantissa(y as int) == y as int);
        assert(e <= 16);
    }
    let ghost m0 = y as int;
    proof {
        assert(pow2(0) == 1) by {
            vstd::arithmetic::power2::lemma2_to64();
        }
    }
    let mut f: i64 = 0;
    let mut i: usize = 0;
    while i < 16
        invariant
            SCALE <= y < 2 * SCALE,
            0 <= i <= 16,
            0 <= f < pow2(i as nat),
            frac_bits(m0, 16) == f * pow2((16 - i) as nat) + frac_bits(y as int, (16 - i)
                as nat),
        decreases 16 - i,
    {
        let ghost yold = y as int;
        proof {
            assert(yold * yold < (4 * SCALE) * SCALE && SCALE * SCALE <= yold * yold)
                by (nonlinear_arith)
                requires
                    SCALE <= yold < 2 * SCALE,
            ;
            vstd::arithmetic::div_mod::lemma_multiply_divide_lt(
                yold * yold,
                SCALE as int,
                4 * SCALE,
            );
            vstd::arithmetic::div_mod::lemma_div_is_ordered(
                SCALE * SCALE,
                yold * yold,
                SCALE as int,
            );
            vstd::arithmetic::div_mod::lemma_div_by_multiple(SCALE as int, SCALE as int);
        }
        let yy = y * y;
        let y2 = div_nn(yy, SCALE);
        let ghost fold_ = f as int;
        let ghost rest = (16 - i) as nat;
        proof {
            vstd::arithmetic::power2::lemma_pow2_strictly_increases(i as nat, 16);
            assert(pow2(16) == 65536) by {
                vstd::arithmetic::power2::lemma2_to64();
            }
            vstd::arithmetic::power2::lemma_pow2_unfold(rest);
            vstd::arithmetic::power2::lemma_pow2_pos((rest - 1) as nat);
            assert(fold_ * pow2(rest) == (2 * fold_) * pow2((rest - 1) as nat))
                by (nonlinear_arith)
                requires
                    pow2(rest) == 2 * pow2((rest - 1) as nat),
            ;
            assert((2 * fold_ + 1) * pow2((rest - 1) as nat) == (2 * fold_) * pow2(
                (rest - 1) as nat,
            ) + pow2((rest - 1) as nat)) by (nonlinear_arith);
            vstd::arithmetic::power2::lemma_pow2_unfold((i + 1) as nat);
        }
        f = f * 2;
        if y2 >= 2 * SCALE {
            y = div_nn(y2, 2);
            f = f + 1;
        } else {
            y = y2;
        }
        i = i + 1;
    }
    proof {
        assert(i == 16);
        assert((16 - i) as nat == 0nat);
        assert(pow2(0nat) == 1) by {
            vstd::arithmetic::power2::lemma2_to64();
        }
        assert(frac_bits(y as int, 0nat) == 0);
        assert(frac_bits(m0, 16) == f * pow2(0nat) + frac_bits(y as int, 0nat));
        assert(f * pow2(0nat) == f) by (nonlinear_arith)
            requires
                pow2(0nat) == 1,
        ;
        assert(frac_bits(m0, 16) == f);
        assert(f < SCALE) by {
            vstd::arithmetic::power2::lemma2_to64();
        }
    }
    e * SCALE + f
}

/// One summand of the entropy of a normalized vector.
fn entropy_term(p: i64) -> (t: i64)
    requires
        0 <= p <= SCALE,
    ensures
        t == term_spec(p as int),
        0 <= t < 17 * SCALE,
{
    if p == 0 {
        return 0;
    }
    proof {
        vstd::arithmetic::div_mod::lemma_div_nonincreasing(SCALE * SCALE, p as int);
        vstd::arithmetic::div_mod::lemma_div_is_ordered_by_denominator(
            SCALE * SCALE,
            p as int,
            SCALE as int,
        );
        vstd::arithmetic::div_mod::lemma_div_by_multiple(SCALE as int, SCALE as int);
    }
    let x = div_nn(SCALE * SCALE, p);
    let l = log2_fp(x);
    proof {
        assert(p * l < SCALE * (17 * SCALE)) by (nonlinear_arith)
            requires
                0 < p <= SCALE,
                0 <= l < 17 * SCALE,
        ;
        assert(0 <= p * l) by (nonlinear_arith)
            requires
                0 < p,
                0 <= l,
        ;
        vstd::arithmetic::div_mod::lemma_multiply_divide_lt(p * l, SCALE as int, 17 * SCALE);
    }
    div_nn(p * l, SCALE)
}

/// The Shannon entropy of a normalized weight vector, in bits scaled by
/// `SCALE`.
pub fn entropy(weights: &Vec<i64>) -> (e: i64)
    requires
        weights@.len() <= MAX_STATES,
        forall|i: int| 0 <= i < weights@.len() ==> 0 <= #[trigger] weights@[i] <= SCALE,
    ensures
        e == entropy_spec(weights@),
        0 <= e <= weights@.len() * 17 * SCALE,
{
    let n = weights.len();
    let mut acc: i64 = 0;
    let mut i: usize = 0;
    proof {
        assert(weights@.subrange(0, 0) =~= Seq::<i64>::empty());
    }
    while i < n
        invariant
            n == weights@.len(),
            n <= MAX_STATES,
            forall|j: int| 0 <= j < n ==> 0 <= #[trigger] weights@[j] <= SCALE,
            0 <= i <= n,
            acc == entropy_spec(weights@.subrange(0, i as int)),
            0 <= acc <= i * 17 * SCALE,
        decreases n - i,
    {
        let t = entropy_term(weights[i]);
        proof {
            let prefix = weights@.subrange(0, i + 1);
            assert(prefix.drop_last() =~= weights@.subrange(0, i as int));
            assert(prefix.last() == weights@[i as int]);
            assert(i * 17 * SCALE + 17 * SCALE == (i + 1) * 17 * SCALE) by (nonlinear_arith);
        }
        acc = acc + t;
        i = i + 1;
    }
    proof {
        assert(weights@.subrange(0, n as int) =~= weights@);
    }
    acc
}

/// Adds `b` to `a` element-wise.
pub fn add(a: &mut Vec<i64>, b: &Vec<i64>)
    requires
        old(a)@.len() == b@.len(),
        forall|i: int|
            0 <= i < old(a)@.len() ==> -0x2000_0000_0000_0000 <= #[trigger] old(a)@[i]
                <= 0x2000_0000_0000_0000,
        forall|i: int| 0 <= i < b@.len() ==> -0x2000_0000_0000_0000 <= #[trigger] b@[i]
            <= 0x2000_0000_0000_0000,
    ensures
        final(a)@.len() == old(a)@.len(),
        forall|i: int| 0 <= i < final(a)@.len() ==> #[trigger] final(a)@[i] == old(a)@[i]
            + b@[i],
{
    let n = a.len();
    let mut i: usize = 0;
    while i < n
        invariant
            n == a@.len() == b@.len(),
            0 <= i <= n,
            forall|j: int| 0 <= j < i ==> #[trigger] a@[j] == old(a)@[j] + b@[j],
            forall|j: int| i <= j < n ==> #[trigger] a@[j] == old(a)@[j],
            forall|j: int| 0 <= j < n ==> -0x2000_0000_0000_0000 <= #[trigger] old(a)@[j]
                <= 0x2000_0000_0000_0000,
            forall|j: int| 0 <= j < n ==> -0x2000_0000_0000_0000 <= #[trigger] b@[j]
                <= 0x2000_0000_0000_0000,
        decreases n - i,
    {
        let v = a[i] + b[i];
        a.set(i, v);
        i = i + 1;
    }
}

/// Multiplies `a` by `b` element-wise: the Hadamard product.  `a` holds
/// normalized weights, `b` raw update weights; the products are raw weights
/// again, clamped and rescaled by the `normalize` that follows.
pub fn hadamard_product(a: &mut Vec<i64>, b: &Vec<i64>)
    requires
        old(a)@.len() == b@.len(),
        forall|i: int| 0 <= i < old(a)@.len() ==> 0 <= #[trigger] old(a)@[i] <= SCALE,
        forall|i: int| 0 <= i < b@.len() ==> -MAX_UPDATE_WEIGHT <= #[trigger] b@[i]
            <= MAX_UPDATE_WEIGHT,
    ensures
        final(a)@.len() == old(a)@.len(),
        forall|i: int| 0 <= i < final(a)@.len() ==> #[trigger] final(a)@[i] == old(a)@[i]
            * b@[i],
        forall|i: int|
            0 <= i < final(a)@.len() ==> -MAX_RAW_WEIGHT <= #[trigger] final(a)@[i]
                <= MAX_RAW_WEIGHT,
{
    let n = a.len();
    let mut i: usize = 0;
    while i < n
        invariant
            n == a@.len() == b@.len(),
            0 <= i <= n,
            forall|j: int| 0 <= j < i ==> #[trigger] a@[j] == old(a)@[j] * b@[j],
            forall|j: int| 0 <= j < i ==> -MAX_RAW_WEIGHT <= #[trigger] a@[j]
                <= MAX_RAW_WEIGHT,
            forall|j: int| i <= j < n ==> #[trigger] a@[j] == old(a)@[j],
            forall|j: int| 0 <= j < n ==> 0 <= #[trigger] old(a)@[j] <= SCALE,
            forall|j: int| 0 <= j < n ==> -MAX_UPDATE_WEIGHT <= #[trigger] b@[j]
                <= MAX_UPDATE_WEIGHT,
        decreases n - i,
    {
        proof {
            assert(-MAX_RAW_WEIGHT <= a@[i as int] * b@[i as int] <= MAX_RAW_WEIGHT)
                by (nonlinear_arith)
                requires
                    0 <= a@[i as int] <= SCALE,
                    -MAX_UPDATE_WEIGHT <= b@[i as int] <= MAX_UPDATE_WEIGHT,
                    SCALE == 65536,
                    MAX_UPDATE_WEIGHT == 0x4000_0000,
                    MAX_RAW_WEIGHT == 0x4000_0000_0000,
            ;
        }
        let v = a[i] * b[i];
        a.set(i, v);
        i = i + 1;
    }
}

/// The index a cumulative draw lands on: the unique `s` with
/// `sum(w[..s]) <= r < sum(w[..s + 1])`.  The picked entry always has
/// positive weight.
pub fn pick_index(weights: &Vec<i64>, r: i64) -> (s: usize)
    requires
        forall|i: int| 0 <= i < weights@.len() ==> 0 <= #[trigger] weights@[i],
        0 <= r < sum_clamped(weights@),
        sum_clamped(weights@) <= 0x4000_0000_0000_0000,
    ensures
        s < weights@.len(),
        weights@[s as int] > 0,
        sum_clamped(weights@.subrange(0, s as int)) <= r < sum_clamped(
            weights@.subrange(0, s as int + 1),
        ),
{
    let n = weights.len();
    let mut acc: i64 = 0;
    let mut s: usize = 0;
    proof {
        assert(weights@.subrange(0, 0) =~= Seq::<i64>::empty());
        assert(weights@.subrange(0, n as int) =~= weights@);
        lemma_sum_clamped_prefix_monotone(weights@, 0, n as int);
    }
    while s < n
        invariant
            n == weights@.len(),
            0 <= s <= n,
            forall|i: int| 0 <= i < n ==> 0 <= #[trigger] weights@[i],
            acc == sum_clamped(weights@.subrange(0, s as int)),
            0 <= acc <= r,
            r < sum_clamped(weights@),
            sum_clamped(weights@) <= 0x4000_0000_0000_0000,
        decreases n - s,
    {
        proof {
            assert(weights@.subrange(0, s + 1).drop_last() =~= weights@.subrange(
                0,
                s as int,
            ));
            lemma_sum_clamped_prefix_monotone(weights@, s + 1, n as int);
            assert(weights@.subrange(0, n as int) =~= weights@);
        }
        let w = weights[s];
        if r < acc + w {
            return s;
        }
        acc = acc + w;
        s = s + 1;
    }
    proof {
        assert(weights@.subrange(0, n as int) =~= weights@);
        assert(false);
    }
    0
}

/// A prefix of a non-negative vector never sums to more than a longer
/// prefix.
pub proof fn lemma_sum_clamped_prefix_monotone(s: Seq<i64>, a: int, b: int)
    requires
        0 <= a <= b <= s.len(),
        forall|i: int| 0 <= i < s.len() ==> 0 <= #[trigger] s[i],
    ensures
        sum_clamped(s.subrange(0, a)) <= sum_clamped(s.subrange(0, b)),
    decreases b - a,
{
    if a < b {
        lemma_sum_clamped_prefix_monotone(s, a, b - 1);
        assert(s.subrange(0, b).drop_last() =~= s.subrange(0, b - 1));
        lemma_sum_clamped_nonneg(s.subrange(0, b - 1));
        assert(sum_clamped(s.subrange(0, b)) == sum_clamped(s.subrange(0, b - 1)) + clamp0(
            s.subrange(0, b).last() as int,
        ));
    }
}

/// A vector of `n` copies of `v`.
pub fn const_vec(n: usize, v: i64) -> (r: Vec<i64>)
    ensures
        r@.len() == n,
        forall|i: int| 0 <= i < n ==> #[trigger] r@[i] == v,
{
    let mut r: Vec<i64> = Vec::new();
    let mut i: usize = 0;
    while i < n
        invariant
            0 <= i <= n,
            r@.len() == i,
            forall|j: int| 0 <= j < i ==> #[trigger] r@[j] == v,
        decreases n - i,
    {
        r.push(v);
        i = i + 1;
    }
    r
}

/// A copy of one row of a weight matrix.
pub fn copy_row(m: &Vec<Vec<i64>>, i: usize) -> (r: Vec<i64>)
    requires
        i < m@.len(),
    ensures
        r@ == m@[i as int]@,
{
    let row = &m[i];
    let n = row.len();
    let mut r: Vec<i64> = Vec::new();
    let mut j: usize = 0;
    while j < n
        invariant
            0 <= j <= n,
            n == row@.len(),
            row@ == m@[i as int]@,
            r@.len() == j,
            forall|k: int| 0 <= k < j ==> #[trigger] r@[k] == row@[k],
        decreases n - j,
    {
        r.push(row[j]);
        j = j + 1;
    }
    proof {
        assert(r@ =~= m@[i as int]@);
    }
    r
}

/// The one-hot vector of length `n` with its full weight at `s`.
pub fn one_hot_row(n: usize, s: usize) -> (r: Vec<i64>)
    requires
        s < n,
    ensures
        r@.len() == n,
        is_one_hot(r@, s as int),
{
    let mut r: Vec<i64> = Vec::new();
    let mut i: usize = 0;
    while i < n
        invariant
            0 <= i <= n,
            s < n,
            r@.len() == i,
            forall|j: int| 0 <= j < i && j != s ==> #[trigger] r@[j] == 0,
            s < i ==> r@[s as int] == SCALE,
        decreases n - i,
    {
        if i == s {
            r.push(SCALE);
        } else {
            r.push(0);
        }
        i = i + 1;
    }
    r
}

/// Where a vector carries the full weight, if anywhere: the index of its
/// first `SCALE` entry.
pub fn find_full(weights: &Vec<i64>) -> (r: Option<usize>)
    ensures
        match r {
            Some(s) => s < weights@.len() && weights@[s as int] == SCALE,
            None => forall|i: int| 0 <= i < weights@.len() ==> #[trigger] weights@[i] != SCALE,
        },
{
    let n = weights.len();
    let mut i: usize = 0;
    while i < n
        invariant
            0 <= i <= n,
            n == weights@.len(),
            forall|j: int| 0 <= j < i ==> #[trigger] weights@[j] != SCALE,
        decreases n - i,
    {
        if weights[i] == SCALE {
            return Some(i);
        }
        i = i + 1;
    }
    None
}

/// A one-hot vector: the whole weight of one at index `j`, zero elsewhere.
pub open spec fn is_one_hot(s: Seq<i64>, j: int) -> bool {
    &&& 0 <= j < s.len()
    &&& s[j] == SCALE
    &&& forall|i: int| 0 <= i < s.len() && i != j ==> s[i] == 0
}

proof fn lemma_frac_bits_scale(i: nat)
    ensures
        frac_bits(SCALE as int, i) == 0,
    decreases i,
{
    if i > 0 {
        vstd::arithmetic::div_mod::lemma_div_by_multiple(SCALE as int, SCALE as int);
        lemma_frac_bits_scale((i - 1) as nat);
    }
}

/// The logarithm of one is zero, exactly.
pub proof fn lemma_log2_of_one()
    ensures
        log2_approx(SCALE as int) == 0,
{
    lemma_frac_bits_scale(16);
}

/// A full weight contributes nothing to the entropy: `- 1 * log2(1) == 0`.
pub proof fn lemma_term_one()
    ensures
        term_spec(SCALE as int) == 0,
{
    vstd::arithmetic::div_mod::lemma_div_by_multiple(SCALE as int, SCALE as int);
    lemma_log2_of_one();
    assert(SCALE * log2_approx(SCALE as int) == 0);
    vstd::arithmetic::div_mod::lemma_div_of0(SCALE as int);
}

/// A vector whose entries are all zero or the full weight has entropy zero.
proof fn lemma_entropy_flat(s: Seq<i64>)
    requires
        forall|i: int| 0 <= i < s.len() ==> s[i] == 0 || s[i] == SCALE,
    ensures
        entropy_spec(s) == 0,
    decreases s.len(),
{
    if s.len() > 0 {
        assert(forall|i: int|
            0 <= i < s.drop_last().len() ==> s.drop_last()[i] == 0 || s.drop_last()[i]
                == SCALE);
        lemma_entropy_flat(s.drop_last());
        assert(s.last() == 0 || s.last() == SCALE);
        lemma_term_one();
    }
}

/// A one-hot vector has entropy exactly zero.
pub proof fn lemma_entropy_one_hot(s: Seq<i64>, j: int)
    requires
        is_one_hot(s, j),
    ensures
        entropy_spec(s) == 0,
{
    lemma_entropy_flat(s);
}

/// The uniform normalized vector over `pow2(k)` states: every entry is the
/// full weight divided by the state count.
pub open spec fn uniform_weights(k: nat) -> Seq<i64> {
    Seq::new(pow2(k), |i: int| (SCALE as int / pow2(k) as int) as i64)
}

proof fn lemma_mantissa_exponent_pow2(k: nat)
    requires
        k <= 16,
    ensures
        mantissa(SCALE * pow2(k)) == SCALE,
        exponent(SCALE * pow2(k)) == k,
    decreases k,
{
    vstd::arithmetic::power2::lemma_pow2_pos(k);
    if k == 0 {
        assert(pow2(0) == 1) by {
            vstd::arithmetic::power2::lemma2_to64();
        }
    } else {
        vstd::arithmetic::power2::lemma_pow2_unfold(k);
        vstd::arithmetic::power2::lemma_pow2_pos((k - 1) as nat);
        let b = SCALE * pow2((k - 1) as nat);
        assert(SCALE * pow2(k) == b * 2 && b >= SCALE) by (nonlinear_arith)
            requires
                pow2(k) == 2 * pow2((k - 1) as nat),
                pow2((k - 1) as nat) >= 1,
                b == SCALE * pow2((k - 1) as nat),
        ;
        vstd::arithmetic::div_mod::lemma_div_by_multiple(b, 2);
        lemma_mantissa_exponent_pow2((k - 1) as nat);
    }
}

/// The logarithm is exact on every power of two in range.
pub proof fn lemma_log2_pow2(k: nat)
    requires
        k <= 16,
    ensures
        log2_approx(SCALE * pow2(k)) == k * SCALE,
{
    lemma_mantissa_exponent_pow2(k);
    lemma_frac_bits_scale(16);
}

proof fn lemma_term_uniform(k: nat)
    requires
        k <= 16,
    ensures
        SCALE as int / pow2(k) as int == pow2((16 - k) as nat),
        term_spec(SCALE as int / pow2(k) as int) == k * pow2((16 - k) as nat),
{
    let pk = pow2(k) as int;
    let pr = pow2((16 - k) as nat) as int;
    vstd::arithmetic::power2::lemma_pow2_pos(k);
    vstd::arithmetic::power2::lemma_pow2_pos((16 - k) as nat);
    assert(pow2(16) == 65536) by {
        vstd::arithmetic::power2::lemma2_to64();
    }
    vstd::arithmetic::power2::lemma_pow2_adds(k, (16 - k) as nat);
    assert(SCALE == pk * pr);
    vstd::arithmetic::div_mod::lemma_div_multiples_vanish(pr, pk);
    assert(SCALE as int / pk == pr);
    let p = pr;
    // SCALE * SCALE == (SCALE * pow2(k)) * p, so the argument of the
    // logarithm is exactly SCALE * pow2(k).
    assert(SCALE * SCALE == (SCALE * pk) * p) by (nonlinear_arith)
        requires
            SCALE == pk * p,
    ;
    vstd::arithmetic::div_mod::lemma_div_by_multiple(SCALE * pk, p);
    assert(SCALE * SCALE / p == SCALE * pow2(k));
    lemma_log2_pow2(k);
    assert(p * (k * SCALE) == (p * k) * SCALE) by (nonlinear_arith);
    vstd::arithmetic::div_mod::lemma_div_by_multiple(p * k, SCALE as int);
    assert(term_spec(p) == p * k);
}

proof fn lemma_entropy_const(p: i64, m: nat)
    ensures
        entropy_spec(Seq::new(m, |i: int| p)) == m * term_spec(p as int),
    decreases m,
{
    let s = Seq::new(m, |i: int| p);
    if m == 0 {
        assert(s.len() == 0);
    } else {
        assert(s.drop_last() =~= Seq::new((m - 1) as nat, |i: int| p));
        lemma_entropy_const(p, (m - 1) as nat);
        assert(s.last() == p);
        assert((m - 1) * term_spec(p as int) + term_spec(p as int) == m * term_spec(p as int))
            by (nonlinear_arith);
    }
}

/// The entropy of the uniform vector over `pow2(k)` states is exactly `k`
/// bits: `log2` of the state count.
pub proof fn lemma_entropy_uniform(k: nat)
    requires
        k <= 16,
    ensures
        entropy_spec(uniform_weights(k)) == k * SCALE,
{
    lemma_term_uniform(k);
    let p = SCALE as int / pow2(k) as int;
    vstd::arithmetic::power2::lemma_pow2_pos((16 - k) as nat);
    vstd::arithmetic::power2::lemma_pow2_pos(k);
    vstd::arithmetic::power2::lemma_pow2_adds(k, (16 - k) as nat);
    assert(pow2(16) == 65536) by {
        vstd::arithmetic::power2::lemma2_to64();
    }
    assert(p <= SCALE) by (nonlinear_arith)
        requires
            p * pow2(k) == SCALE,
            pow2(k) >= 1,
            p >= 1,
    ;
    assert(0 <= p <= SCALE);
    assert((p as i64) as int == p);
    assert(uniform_weights(k) =~= Seq::new(pow2(k), |i: int| p as i64));
    lemma_entropy_const(p as i64, pow2(k));
    assert(pow2(16) == 65536) by {
        vstd::arithmetic::power2::lemma2_to64();
    }
    vstd::arithmetic::power2::lemma_pow2_adds(k, (16 - k) as nat);
    assert(pow2(k) * (k * pow2((16 - k) as nat)) == k * SCALE) by (nonlinear_arith)
        requires
            pow2(k) * pow2((16 - k) as nat) == pow2(16),
            pow2(16) == SCALE,
    ;
}

/// Entropy does not depend on the order of the weights: any permutation of
/// a vector has the same entropy.
pub proof fn lemma_entropy_permutation(s1: Seq<i64>, s2: Seq<i64>)
    requires
        s1.to_multiset() == s2.to_multiset(),
    ensures
        entropy_spec(s1) == entropy_spec(s2),
{
    let f = |acc: int, p: i64| acc + term_spec(p as int);
    assert(vstd::seq_lib::commutative_foldl(f));
    vstd::seq_lib::lemma_fold_left_permutation(s1, s2, f, 0int);
}

} // verus!

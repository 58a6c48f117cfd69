//! The rolling window of recent samples and the statistics drawn from it.

use vstd::prelude::*;
use std::collections::VecDeque;
use vstd::std_specs::vecdeque::VecDequeAdditionalSpecFns;
use crate::sample::BatterySample;

verus! {

/// How many samples the window keeps (one per second: a minute of history).
pub const TREND_SAMPLES: usize = 60;

/// The last `TREND_SAMPLES` elements of `q` (all of them if there are fewer).
pub open spec fn window(q: Seq<BatterySample>) -> Seq<BatterySample> {
    if q.len() > TREND_SAMPLES {
        q.skip(q.len() - TREND_SAMPLES)
    } else {
        q
    }
}

/// `Σ_{i<k} power_i · (i + 1)`: the power readings weighted by position,
/// so that newer samples weigh more.
pub open spec fn weighted_power(s: Seq<BatterySample>, k: int) -> int
    decreases k,
{
    if k <= 0 {
        0
    } else {
        weighted_power(s, k - 1) + s[k - 1].power * k
    }
}

/// `1 + 2 + ... + k`: the sum of the weights of `k` samples.
pub open spec fn weight_total(k: int) -> int
    decreases k,
{
    if k <= 0 {
        0
    } else {
        weight_total(k - 1) + k
    }
}

/// `Σ_{i<k} power_i`.
pub open spec fn power_sum(s: Seq<BatterySample>, k: int) -> int
    decreases k,
{
    if k <= 0 {
        0
    } else {
        power_sum(s, k - 1) + s[k - 1].power
    }
}

/// Twice the distance of position `i` from the mean position of `n` samples.
pub open spec fn centered(i: int, n: int) -> int {
    2 * i - (n - 1)
}

/// `Σ_{i<k} centered(i) · (n · power_i − total)`: `2n` times the
/// co-variation of position and power over the first `k` samples.
pub open spec fn covariation(s: Seq<BatterySample>, n: int, total: int, k: int) -> int
    decreases k,
{
    if k <= 0 {
        0
    } else {
        covariation(s, n, total, k - 1) + centered(k - 1, n) * (n * s[k - 1].power - total)
    }
}

/// `Σ_{i<k} centered(i)²`: four times the spread of the positions.
pub open spec fn spread(n: int, k: int) -> int
    decreases k,
{
    if k <= 0 {
        0
    } else {
        spread(n, k - 1) + centered(k - 1, n) * centered(k - 1, n)
    }
}

/// The least-squares slope of power over position, divided by the mean
/// power, as a fraction `(numerator, denominator)`:
/// `(cov / 2n) / (spread / 4) / (total / n) = 2·cov / (total · spread)`.
/// It is `0/1` for fewer than three samples or when all power is zero.
pub open spec fn relative_slope(s: Seq<BatterySample>) -> (int, int) {
    let n = s.len() as int;
    let total = power_sum(s, n);
    if n < 3 || total == 0 {
        (0, 1)
    } else {
        (2 * covariation(s, n, total, n), total * spread(n, n))
    }
}

/// The smoothed power `weighted / total`.
#[derive(Clone, Copy, Debug, PartialEq, Eq)]
pub struct SmoothedPower {
    pub weighted: u128,
    pub total: u128,
}

/// The relative power trend `num / den`, with `den > 0`.
#[derive(Clone, Copy, Debug, PartialEq, Eq)]
pub struct PowerTrend {
    pub num: i128,
    pub den: i128,
}

proof fn lemma_weighted_step(p: int, k: int, m: int)
    by (nonlinear_arith)
    requires
        0 <= p <= m,
        0 <= k,
    ensures
        0 <= p * k <= m * k,
{
}

proof fn lemma_term_bound(a: int, b: int, m: int)
    by (nonlinear_arith)
    requires
        -60 <= a <= 60,
        -60 * m <= b <= 60 * m,
        0 <= m,
    ensures
        -3600 * m <= a * b <= 3600 * m,
{
}

proof fn lemma_square_bound(a: int)
    by (nonlinear_arith)
    requires
        -60 <= a <= 60,
    ensures
        0 <= a * a <= 3600,
{
}

proof fn lemma_den_bound(t: int, sp: int, m: int)
    by (nonlinear_arith)
    requires
        0 < t <= 60 * m,
        0 < sp <= 216000,
        0 <= m,
    ensures
        0 < t * sp <= 12960000 * m,
{
}

proof fn lemma_scaled_power(n: int, p: int, m: int)
    by (nonlinear_arith)
    requires
        0 <= n <= 60,
        0 <= p <= m,
    ensures
        0 <= n * p <= 60 * m,
{
}

proof fn lemma_accumulate(c: int, t: int, j: int, k: int)
    by (nonlinear_arith)
    requires
        0 <= j < 60,
        0 <= k,
        -(j * k) <= c <= j * k,
        -k <= t <= k,
    ensures
        -((j + 1) * k) <= c + t <= (j + 1) * k,
        (j + 1) * k <= 60 * k,
{
}

/// After a push the window holds at most `TREND_SAMPLES` samples, its most
/// recent one is the sample pushed, and nothing is dropped while there is room.
pub proof fn lemma_push_keeps_latest(q: Seq<BatterySample>, s: BatterySample)
    ensures
        window(q.push(s)).len() <= TREND_SAMPLES,
        window(q.push(s)).last() == s,
        q.len() < TREND_SAMPLES ==> window(q.push(s)) == q.push(s),
{
}

proof fn lemma_scaled_between(lo: int, p: int, hi: int, k: int)
    by (nonlinear_arith)
    requires
        lo <= p <= hi,
        0 <= k,
    ensures
        lo * k <= p * k <= hi * k,
{
}

/// The smoothed power lies between the smallest and the largest power in
/// the window: `lo · Σw <= Σ w·p <= hi · Σw` whenever every reading is
/// within `[lo, hi]`.
pub proof fn lemma_smoothed_between(s: Seq<BatterySample>, k: int, lo: int, hi: int)
    requires
        0 <= k <= s.len(),
        forall|i: int| 0 <= i < s.len() ==> lo <= #[trigger] s[i].power <= hi,
    ensures
        lo * weight_total(k) <= weighted_power(s, k) <= hi * weight_total(k),
    decreases k,
{
    if k > 0 {
        lemma_smoothed_between(s, k - 1, lo, hi);
        lemma_scaled_between(lo, s[k - 1].power as int, hi, k);
        assert(lo * weight_total(k) == lo * weight_total(k - 1) + lo * k) by (nonlinear_arith)
            requires weight_total(k) == weight_total(k - 1) + k;
        assert(hi * weight_total(k) == hi * weight_total(k - 1) + hi * k) by (nonlinear_arith)
            requires weight_total(k) == weight_total(k - 1) + k;
    }
}

proof fn lemma_constant_sum(s: Seq<BatterySample>, k: int, c: int)
    requires
        0 <= k <= s.len(),
        forall|i: int| 0 <= i < s.len() ==> #[trigger] s[i].power == c,
    ensures
        power_sum(s, k) == k * c,
    decreases k,
{
    if k > 0 {
        lemma_constant_sum(s, k - 1, c);
        assert(s[k - 1].power == c);
        assert(k * c == (k - 1) * c + c) by (nonlinear_arith);
    } else {
        assert(k * c == 0) by (nonlinear_arith)
            requires k == 0;
    }
}

proof fn lemma_constant_covariation(s: Seq<BatterySample>, n: int, c: int, k: int)
    requires
        0 <= k <= s.len(),
        forall|i: int| 0 <= i < s.len() ==> #[trigger] s[i].power == c,
    ensures
        covariation(s, n, n * c, k) == 0,
    decreases k,
{
    if k > 0 {
        lemma_constant_covariation(s, n, c, k - 1);
        assert(n * s[k - 1].power - n * c == 0);
        assert(centered(k - 1, n) * (n * s[k - 1].power - n * c) == 0) by (nonlinear_arith)
            requires n * s[k - 1].power - n * c == 0;
    }
}

/// A window whose power never changes shows no trend.
pub proof fn lemma_constant_power_no_trend(s: Seq<BatterySample>, c: int)
    requires
        forall|i: int| 0 <= i < s.len() ==> #[trigger] s[i].power == c,
    ensures
        relative_slope(s).0 == 0,
{
    let n = s.len() as int;
    lemma_constant_sum(s, n, c);
    assert(n * c == c * n) by (nonlinear_arith);
    lemma_constant_covariation(s, n, c, n);
}

spec fn centered_sum(n: int, k: int) -> int
    decreases k,
{
    if k <= 0 {
        0
    } else {
        centered_sum(n, k - 1) + centered(k - 1, n)
    }
}

/// `Σ_{i<k} centered(i) · power_i`: the first moment of the power readings
/// about the mean position of `n` samples (times two).
pub open spec fn position_weighted(s: Seq<BatterySample>, n: int, k: int) -> int
    decreases k,
{
    if k <= 0 {
        0
    } else {
        position_weighted(s, n, k - 1) + centered(k - 1, n) * s[k - 1].power
    }
}

proof fn lemma_centered_sum(n: int, k: int)
    requires
        0 <= k,
    ensures
        centered_sum(n, k) == k * (k - n),
    decreases k,
{
    if k > 0 {
        lemma_centered_sum(n, k - 1);
        assert(k * (k - n) == (k - 1) * (k - 1 - n) + 2 * (k - 1) - (n - 1)) by (nonlinear_arith);
    } else {
        assert(k * (k - n) == 0) by (nonlinear_arith)
            requires k == 0;
    }
}

proof fn lemma_covariation_split(s: Seq<BatterySample>, n: int, total: int, k: int)
    requires
        0 <= k <= s.len(),
    ensures
        covariation(s, n, total, k) == n * position_weighted(s, n, k) - total * centered_sum(n, k),
    decreases k,
{
    if k > 0 {
        lemma_covariation_split(s, n, total, k - 1);
        let a = centered(k - 1, n);
        let y = s[k - 1].power as int;
        let w = position_weighted(s, n, k - 1);
        let c = centered_sum(n, k - 1);
        assert(a * (n * y - total) + n * w - total * c == n * (w + a * y) - total * (c + a))
            by (nonlinear_arith);
    }
}

proof fn lemma_rising(s: Seq<BatterySample>, n: int, k: int)
    requires
        1 <= k <= n,
        n == s.len(),
        forall|i: int, j: int| 0 <= i <= j < s.len() ==> s[i].power <= s[j].power,
    ensures
        position_weighted(s, n, k) >= centered_sum(n, k) * s[k - 1].power,
    decreases k,
{
    if k == 1 {
        assert(position_weighted(s, n, 0) == 0);
        assert(centered_sum(n, 0) == 0);
    } else {
        lemma_rising(s, n, k - 1);
        lemma_centered_sum(n, k - 1);
        let t = centered_sum(n, k - 1);
        let prev = s[k - 2].power as int;
        let cur = s[k - 1].power as int;
        assert(prev <= cur);
        assert(t <= 0) by (nonlinear_arith)
            requires t == (k - 1) * (k - 1 - n), 1 <= k - 1 <= n;
        assert(t * prev >= t * cur) by (nonlinear_arith)
            requires t <= 0, prev <= cur;
        assert((t + centered(k - 1, n)) * cur == t * cur + centered(k - 1, n) * cur)
            by (nonlinear_arith);
    }
}

proof fn lemma_falling(s: Seq<BatterySample>, n: int, k: int)
    requires
        1 <= k <= n,
        n == s.len(),
        forall|i: int, j: int| 0 <= i <= j < s.len() ==> s[i].power >= s[j].power,
    ensures
        position_weighted(s, n, k) <= centered_sum(n, k) * s[k - 1].power,
    decreases k,
{
    if k == 1 {
        assert(position_weighted(s, n, 0) == 0);
        assert(centered_sum(n, 0) == 0);
    } else {
        lemma_falling(s, n, k - 1);
        lemma_centered_sum(n, k - 1);
        let t = centered_sum(n, k - 1);
        let prev = s[k - 2].power as int;
        let cur = s[k - 1].power as int;
        assert(prev >= cur);
        assert(t <= 0) by (nonlinear_arith)
            requires t == (k - 1) * (k - 1 - n), 1 <= k - 1 <= n;
        assert(t * prev <= t * cur) by (nonlinear_arith)
            requires t <= 0, prev >= cur;
        assert((t + centered(k - 1, n)) * cur == t * cur + centered(k - 1, n) * cur)
            by (nonlinear_arith);
    }
}

/// The trend follows the direction of the readings: readings that never
/// fall give a trend that is not negative, and readings that never rise give
/// one that is not positive.
pub proof fn lemma_trend_follows_direction(s: Seq<BatterySample>)
    ensures
        (forall|i: int, j: int| 0 <= i <= j < s.len() ==> s[i].power <= s[j].power)
            ==> relative_slope(s).0 >= 0,
        (forall|i: int, j: int| 0 <= i <= j < s.len() ==> s[i].power >= s[j].power)
            ==> relative_slope(s).0 <= 0,
{
    let n = s.len() as int;
    let total = power_sum(s, n);
    if n >= 3 && total != 0 {
        lemma_covariation_split(s, n, total, n);
        lemma_centered_sum(n, n);
        assert(centered_sum(n, n) == 0) by (nonlinear_arith)
            requires centered_sum(n, n) == n * (n - n);
        assert(total * centered_sum(n, n) == 0) by (nonlinear_arith)
            requires centered_sum(n, n) == 0;
        if forall|i: int, j: int| 0 <= i <= j < s.len() ==> s[i].power <= s[j].power {
            lemma_rising(s, n, n);
            assert(n * position_weighted(s, n, n) >= 0) by (nonlinear_arith)
                requires position_weighted(s, n, n) >= 0, n >= 3;
        }
        if forall|i: int, j: int| 0 <= i <= j < s.len() ==> s[i].power >= s[j].power {
            lemma_falling(s, n, n);
            assert(n * position_weighted(s, n, n) <= 0) by (nonlinear_arith)
                requires position_weighted(s, n, n) <= 0, n >= 3;
        }
    }
}

proof fn lemma_rising_strict(s: Seq<BatterySample>, n: int, k: int)
    requires
        2 <= k <= n,
        n == s.len(),
        forall|i: int, j: int| 0 <= i < j < s.len() ==> s[i].power < s[j].power,
    ensures
        position_weighted(s, n, k) > centered_sum(n, k) * s[k - 1].power,
    decreases k,
{
    let t = centered_sum(n, k - 1);
    let prev = s[k - 2].power as int;
    let cur = s[k - 1].power as int;
    assert(prev < cur);
    lemma_centered_sum(n, k - 1);
    assert(position_weighted(s, n, k) == position_weighted(s, n, k - 1) + centered(k - 1, n) * cur);
    assert(centered_sum(n, k) == t + centered(k - 1, n));
    assert((t + centered(k - 1, n)) * cur == t * cur + centered(k - 1, n) * cur)
        by (nonlinear_arith);
    if k == 2 {
        assert(position_weighted(s, n, 0) == 0);
        assert(centered_sum(n, 0) == 0);
        assert(t < 0) by (nonlinear_arith)
            requires t == 1 * (1 - n), n >= 2;
        assert(t * prev > t * cur) by (nonlinear_arith)
            requires t < 0, prev < cur;
        assert(t == centered(0, n));
        assert(position_weighted(s, n, 1) == t * prev);
    } else {
        lemma_rising_strict(s, n, k - 1);
        assert(t <= 0) by (nonlinear_arith)
            requires t == (k - 1) * (k - 1 - n), 1 <= k - 1 <= n;
        assert(t * prev >= t * cur) by (nonlinear_arith)
            requires t <= 0, prev <= cur;
    }
}

proof fn lemma_falling_strict(s: Seq<BatterySample>, n: int, k: int)
    requires
        2 <= k <= n,
        n == s.len(),
        forall|i: int, j: int| 0 <= i < j < s.len() ==> s[i].power > s[j].power,
    ensures
        position_weighted(s, n, k) < centered_sum(n, k) * s[k - 1].power,
    decreases k,
{
    let t = centered_sum(n, k - 1);
    let prev = s[k - 2].power as int;
    let cur = s[k - 1].power as int;
    assert(prev > cur);
    lemma_centered_sum(n, k - 1);
    assert(position_weighted(s, n, k) == position_weighted(s, n, k - 1) + centered(k - 1, n) * cur);
    assert(centered_sum(n, k) == t + centered(k - 1, n));
    assert((t + centered(k - 1, n)) * cur == t * cur + centered(k - 1, n) * cur)
        by (nonlinear_arith);
    if k == 2 {
        assert(position_weighted(s, n, 0) == 0);
        assert(centered_sum(n, 0) == 0);
        assert(t < 0) by (nonlinear_arith)
            requires t == 1 * (1 - n), n >= 2;
        assert(t * prev < t * cur) by (nonlinear_arith)
            requires t < 0, prev > cur;
        assert(t == centered(0, n));
        assert(position_weighted(s, n, 1) == t * prev);
    } else {
        lemma_falling_strict(s, n, k - 1);
        assert(t <= 0) by (nonlinear_arith)
            requires t == (k - 1) * (k - 1 - n), 1 <= k - 1 <= n;
        assert(t * prev <= t * cur) by (nonlinear_arith)
            requires t <= 0, prev >= cur;
    }
}

proof fn lemma_sum_at_least(s: Seq<BatterySample>, k: int, j: int)
    requires
        0 <= j < k <= s.len(),
    ensures
        power_sum(s, k) >= s[j].power,
    decreases k,
{
    if k - 1 > j {
        lemma_sum_at_least(s, k - 1, j);
    } else {
        lemma_power_sum_nonnegative(s, k - 1);
    }
}

proof fn lemma_power_sum_nonnegative(s: Seq<BatterySample>, k: int)
    requires
        0 <= k <= s.len(),
    ensures
        power_sum(s, k) >= 0,
    decreases k,
{
    if k > 0 {
        lemma_power_sum_nonnegative(s, k - 1);
    }
}

/// With three or more readings, strictly rising readings give a positive
/// trend and strictly falling ones a negative trend.
pub proof fn lemma_trend_strict_direction(s: Seq<BatterySample>)
    requires
        s.len() >= 3,
    ensures
        (forall|i: int, j: int| 0 <= i < j < s.len() ==> s[i].power < s[j].power)
            ==> relative_slope(s).0 > 0,
        (forall|i: int, j: int| 0 <= i < j < s.len() ==> s[i].power > s[j].power)
            ==> relative_slope(s).0 < 0,
{
    let n = s.len() as int;
    let total = power_sum(s, n);
    lemma_covariation_split(s, n, total, n);
    lemma_centered_sum(n, n);
    assert(centered_sum(n, n) == 0) by (nonlinear_arith)
        requires centered_sum(n, n) == n * (n - n);
    assert(total * centered_sum(n, n) == 0) by (nonlinear_arith)
        requires centered_sum(n, n) == 0;
    if forall|i: int, j: int| 0 <= i < j < s.len() ==> s[i].power < s[j].power {
        assert(s[0].power < s[2].power);
        lemma_sum_at_least(s, n, 2);
        lemma_rising_strict(s, n, n);
        assert(n * position_weighted(s, n, n) > 0) by (nonlinear_arith)
            requires position_weighted(s, n, n) > 0, n >= 3;
    }
    if forall|i: int, j: int| 0 <= i < j < s.len() ==> s[i].power > s[j].power {
        assert(s[0].power > s[2].power);
        lemma_sum_at_least(s, n, 0);
        lemma_falling_strict(s, n, n);
        assert(n * position_weighted(s, n, n) < 0) by (nonlinear_arith)
            requires position_weighted(s, n, n) < 0, n >= 3;
    }
}

proof fn lemma_scaled_sum(s: Seq<BatterySample>, t: Seq<BatterySample>, c: int, k: int)
    requires
        0 <= k <= s.len(),
        s.len() == t.len(),
        forall|i: int| 0 <= i < s.len() ==> #[trigger] t[i].power == c * s[i].power,
    ensures
        power_sum(t, k) == c * power_sum(s, k),
    decreases k,
{
    if k > 0 {
        lemma_scaled_sum(s, t, c, k - 1);
        assert(t[k - 1].power == c * s[k - 1].power);
        assert(c * power_sum(s, k - 1) + c * s[k - 1].power == c * (power_sum(s, k - 1) + s[k - 1].power))
            by (nonlinear_arith);
    } else {
        assert(c * 0 == 0) by (nonlinear_arith);
    }
}

proof fn lemma_scaled_covariation(
    s: Seq<BatterySample>,
    t: Seq<BatterySample>,
    c: int,
    n: int,
    total: int,
    k: int,
)
    requires
        0 <= k <= s.len(),
        s.len() == t.len(),
        forall|i: int| 0 <= i < s.len() ==> #[trigger] t[i].power == c * s[i].power,
    ensures
        covariation(t, n, c * total, k) == c * covariation(s, n, total, k),
    decreases k,
{
    if k > 0 {
        lemma_scaled_covariation(s, t, c, n, total, k - 1);
        let a = centered(k - 1, n);
        let y = s[k - 1].power as int;
        assert(t[k - 1].power == c * y);
        let prior = covariation(s, n, total, k - 1);
        assert(c * prior + a * (n * (c * y) - c * total) == c * (prior + a * (n * y - total)))
            by (nonlinear_arith);
    } else {
        assert(c * 0 == 0) by (nonlinear_arith);
    }
}

/// The trend is relative to the mean power: scaling every reading by the
/// same positive factor leaves the fraction `num / den` unchanged.
pub proof fn lemma_trend_scale_invariant(s: Seq<BatterySample>, t: Seq<BatterySample>, c: int)
    requires
        c > 0,
        s.len() == t.len(),
        forall|i: int| 0 <= i < s.len() ==> #[trigger] t[i].power == c * s[i].power,
    ensures
        relative_slope(s).0 * relative_slope(t).1 == relative_slope(t).0 * relative_slope(s).1,
{
    let n = s.len() as int;
    lemma_scaled_sum(s, t, c, n);
    let total = power_sum(s, n);
    assert(c * total == 0 <==> total == 0) by (nonlinear_arith)
        requires c > 0;
    if n >= 3 && total != 0 {
        lemma_scaled_covariation(s, t, c, n, total, n);
        let cv = covariation(s, n, total, n);
        let sp = spread(n, n);
        assert((2 * cv) * ((c * total) * sp) == (2 * (c * cv)) * (total * sp)) by (nonlinear_arith);
    }
}

proof fn lemma_spread_closed_form(n: int, k: int)
    requires
        0 <= k,
    ensures
        3 * spread(n, k) == 2 * (k - 1) * k * (2 * k - 1) - 6 * (n - 1) * k * (k - 1) + 3 * k * (n - 1) * (n - 1),
    decreases k,
{
    if k > 0 {
        lemma_spread_closed_form(n, k - 1);
        let j = k - 1;
        let m = n - 1;
        let a1 = 2 * (k - 1) * k * (2 * k - 1);
        let a0 = 2 * (j - 1) * j * (2 * j - 1);
        let b1 = 6 * m * k * (k - 1);
        let b0 = 6 * m * j * (j - 1);
        let c1 = 3 * k * m * m;
        let c0 = 3 * j * m * m;
        let d = 3 * ((2 * j - m) * (2 * j - m));
        assert(a1 - a0 == 12 * (j * j)) by (nonlinear_arith)
            requires a1 == 2 * (k - 1) * k * (2 * k - 1), a0 == 2 * (j - 1) * j * (2 * j - 1), k == j + 1;
        assert(b1 - b0 == 12 * (m * j)) by (nonlinear_arith)
            requires b1 == 6 * m * k * (k - 1), b0 == 6 * m * j * (j - 1), k == j + 1;
        assert(c1 - c0 == 3 * (m * m)) by (nonlinear_arith)
            requires c1 == 3 * k * m * m, c0 == 3 * j * m * m, k == j + 1;
        assert(d == 12 * (j * j) - 12 * (m * j) + 3 * (m * m)) by (nonlinear_arith)
            requires d == 3 * ((2 * j - m) * (2 * j - m));
        assert(centered(j, n) * centered(j, n) == (2 * j - m) * (2 * j - m));
    } else {
        assert(2 * (k - 1) * k * (2 * k - 1) - 6 * (n - 1) * k * (k - 1) + 3 * k * (n - 1) * (n - 1) == 0)
            by (nonlinear_arith)
            requires k == 0;
    }
}

/// The trend is the least-squares slope of power over position, divided by
/// the mean power. With `n >= 3` readings of total power `T > 0`:
/// the numerator is `2n · Σ_i (2i − (n − 1)) · p_i` and the denominator
/// satisfies `3 · den == T · n · (n² − 1)`; so `num / den` is
/// `[Σ(x − x̄)(p − p̄) / Σ(x − x̄)²] / (T / n)` with `Σ(x − x̄)² = n(n² − 1)/12`.
pub proof fn lemma_trend_least_squares(s: Seq<BatterySample>)
    requires
        s.len() >= 3,
        power_sum(s, s.len() as int) > 0,
    ensures
        relative_slope(s).0 == 2 * s.len() * position_weighted(s, s.len() as int, s.len() as int),
        3 * relative_slope(s).1 == power_sum(s, s.len() as int) * s.len() * (s.len() * s.len() - 1),
{
    let n = s.len() as int;
    let total = power_sum(s, n);
    lemma_covariation_split(s, n, total, n);
    lemma_centered_sum(n, n);
    assert(centered_sum(n, n) == 0) by (nonlinear_arith)
        requires centered_sum(n, n) == n * (n - n);
    assert(total * centered_sum(n, n) == 0) by (nonlinear_arith)
        requires centered_sum(n, n) == 0;
    lemma_spread_closed_form(n, n);
    let sp = spread(n, n);
    assert(3 * sp == n * (n * n - 1)) by (nonlinear_arith)
        requires 3 * sp == 2 * (n - 1) * n * (2 * n - 1) - 6 * (n - 1) * n * (n - 1) + 3 * n * (n - 1) * (n - 1);
    assert(3 * (total * sp) == total * n * (n * n - 1)) by (nonlinear_arith)
        requires 3 * sp == n * (n * n - 1);
    assert(2 * (n * position_weighted(s, n, n)) == 2 * n * position_weighted(s, n, n)) by (nonlinear_arith);
}

/// The most recent samples, oldest first, never more than `TREND_SAMPLES`.
pub struct TrendData {
    samples: VecDeque<BatterySample>,
}

impl View for TrendData {
    type V = Seq<BatterySample>;

    closed spec fn view(&self) -> Seq<BatterySample> {
        self.samples@
    }
}

impl TrendData {
    #[verifier::type_invariant]
    spec fn bounded(&self) -> bool {
        self.samples@.len() <= TREND_SAMPLES
    }

    /// An empty window.
    pub fn new() -> (t: TrendData)
        ensures
            t@ == Seq::<BatterySample>::empty(),
    {
        TrendData { samples: VecDeque::with_capacity(TREND_SAMPLES) }
    }

    /// The number of samples held; never more than `TREND_SAMPLES`.
    pub fn len(&self) -> (n: usize)
        ensures
            n == self@.len(),
            n <= TREND_SAMPLES,
    {
        proof {
            use_type_invariant(self);
        }
        self.samples.len()
    }

    /// Appends `s` and drops the oldest samples beyond `TREND_SAMPLES`.
    pub fn push(&mut self, s: BatterySample)
        ensures
            final(self)@ == window(old(self)@.push(s)),
            final(self)@.len() <= TREND_SAMPLES,
    {
        proof {
            use_type_invariant(&*self);
        }
        let mut samples: VecDeque<BatterySample> = VecDeque::new();
        std::mem::swap(&mut samples, &mut self.samples);
        let ghost q = samples@.push(s);
        samples.push_back(s);
        let ghost mut k: int = 0;
        assert(samples@ =~= q.subrange(0, q.len() as int));
        while samples.len() > TREND_SAMPLES
            invariant
                q.len() <= TREND_SAMPLES + 1,
                0 <= k <= q.len(),
                samples@ == q.subrange(k, q.len() as int),
                q.len() > TREND_SAMPLES ==> samples@.len() >= TREND_SAMPLES,
                q.len() <= TREND_SAMPLES ==> k == 0,
            decreases samples@.len(),
        {
            let _popped = samples.pop_front();
            proof {
                k = k + 1;
            }
            assert(samples@ =~= q.subrange(k, q.len() as int));
        }
        assert(samples@ =~= window(q));
        self.samples = samples;
    }

    /// The weighted mean of the power readings, newer samples weighing more
    /// (weights `1..=n`, oldest first); `None` for an empty window.
    pub fn smoothed_power(&self) -> (r: Option<SmoothedPower>)
        ensures
            r is None <==> self@.len() == 0,
            r matches Some(p) ==> p.weighted == weighted_power(self@, self@.len() as int)
                && p.total == weight_total(self@.len() as int),
    {
        proof {
            use_type_invariant(self);
        }
        let n = self.samples.len();
        if n == 0 {
            return None;
        }
        let ghost m: int = u64::MAX as int;
        let mut weighted: u128 = 0;
        let mut total: u128 = 0;
        let mut i: usize = 0;
        while i < n
            invariant
                n == self@.len(),
                n <= TREND_SAMPLES,
                m == u64::MAX as int,
                i <= n,
                weighted == weighted_power(self@, i as int),
                total == weight_total(i as int),
                total <= 60 * i,
                weighted <= total * m,
            decreases n - i,
        {
            let p = self.samples[i].power;
            proof {
                lemma_weighted_step(p as int, (i + 1) as int, m);
            }
            weighted = weighted + (p as u128) * ((i + 1) as u128);
            total = total + (i + 1) as u128;
            i = i + 1;
        }
        Some(SmoothedPower { weighted, total })
    }

    /// The trend of the power readings: the slope of their least-squares
    /// line over sample position, relative to their mean (see `relative_slope`).
    pub fn power_trend_slope(&self) -> (r: PowerTrend)
        ensures
            r.num == relative_slope(self@).0,
            r.den == relative_slope(self@).1,
            r.den > 0,
    {
        proof {
            use_type_invariant(self);
        }
        let n = self.samples.len();
        if n < 3 {
            return PowerTrend { num: 0, den: 1 };
        }
        let mut sum: i128 = 0;
        let mut i: usize = 0;
        while i < n
            invariant
                n == self@.len(),
                n <= TREND_SAMPLES,
                i <= n,
                sum == power_sum(self@, i as int),
                0 <= sum <= i * 18446744073709551615int,
            decreases n - i,
        {
            sum = sum + self.samples[i].power as i128;
            i = i + 1;
        }
        if sum == 0 {
            return PowerTrend { num: 0, den: 1 };
        }
        let nn = n as i128;
        let mut cov: i128 = 0;
        let mut spr: i128 = 0;
        let mut j: usize = 0;
        while j < n
            invariant
                n == self@.len(),
                3 <= n <= TREND_SAMPLES,
                nn == n,
                j <= n,
                sum == power_sum(self@, n as int),
                0 < sum <= 60 * 18446744073709551615int,
                cov == covariation(self@, n as int, sum as int, j as int),
                spr == spread(n as int, j as int),
                -(j * (3600 * 18446744073709551615int)) <= cov <= j * (3600 * 18446744073709551615int),
                (n - 1) * (n - 1) <= spr || j == 0,
                0 <= spr <= 3600 * j,
            decreases n - j,
        {
            let a: i128 = 2 * (j as i128) - (nn - 1);
            let p = self.samples[j].power as i128;
            proof {
                lemma_scaled_power(n as int, p as int, 18446744073709551615int);
                lemma_square_bound(a as int);
            }
            let b: i128 = nn * p - sum;
            proof {
                lemma_term_bound(a as int, b as int, 18446744073709551615int);
                if j == 0 {
                    assert(a == -(nn - 1));
                    assert(a * a == (n - 1) * (n - 1)) by (nonlinear_arith)
                        requires a == -(nn - 1), nn == n;
                }
            }
            proof {
                lemma_accumulate(cov as int, a * b, j as int, 3600 * 18446744073709551615int);
            }
            cov = cov + a * b;
            spr = spr + a * a;
            j = j + 1;
        }
        proof {
            assert((n - 1) * (n - 1) > 0) by (nonlinear_arith)
                requires n >= 3;
            lemma_den_bound(sum as int, spr as int, 18446744073709551615int);
        }
        PowerTrend { num: 2 * cov, den: sum * spr }
    }

    /// A copy of the window, for computing outside a lock.
    pub fn snapshot(&self) -> (t: TrendData)
        ensures
            t@ == self@,
    {
        proof {
            use_type_invariant(self);
        }
        let samples = self.samples.clone();
        assert(samples@ =~= self.samples@) by {
            assert forall|i: int| 0 <= i < samples@.len() implies samples@[i] == self.samples@[i] by {
                assert(cloned::<BatterySample>(self.samples[i], samples[i]));
            }
        }
        TrendData { samples }
    }

    /// The most recent sample, if any.
    pub fn latest(&self) -> (r: Option<&BatterySample>)
        ensures
            r == (if self@.len() == 0 {
                None::<&BatterySample>
            } else {
                Some(&self@.last())
            }),
    {
        let n = self.samples.len();
        if n == 0 {
            None
        } else {
            Some(&self.samples[n - 1])
        }
    }
}

} // verus!

//! Dispatch rates.
//!
//! A rate is a whole number of billionths of a query per second, so that every
//! rate computed here is exact or off by less than one such unit. The
//! spacing that a rate asks for is a whole number of nanoseconds, and a rate in
//! these units and its spacing multiply to [`UNLIMITED_QPS`].

use vstd::prelude::*;

verus! {

/// A rate in billionths of a query per second.
pub type NanoQps = u128;

/// One query per second.
pub const ONE_QPS: NanoQps = 1_000_000_000;

/// Rate high enough that pacing never sleeps, used to mean "no limit" without
/// needing a separate unlimited state.
pub const UNLIMITED_QPS: NanoQps = 1_000_000_000_000_000_000;

/// Floor on any pacing rate that the controller chooses, so a bad patch cannot
/// stall a scan outright.
pub const MIN_RATE_QPS: NanoQps = 1_000_000_000;

/// The greater of two numbers.
pub open spec fn max(a: int, b: int) -> int {
    if a >= b {
        a
    } else {
        b
    }
}

/// The lesser of two numbers.
pub open spec fn min(a: int, b: int) -> int {
    if a <= b {
        a
    } else {
        b
    }
}

/// The whole number nearest to `a / b`, the upper one where two are as near.
pub open spec fn nearest(a: int, b: int) -> int {
    (2 * a + b) / (2 * b)
}

/// The spacing in nanoseconds that paces at `rate`: one second divided by the
/// rate, to the nearest nanosecond, and at least one nanosecond so that a cursor
/// advanced by it always makes progress.
pub open spec fn interval_for(rate: NanoQps) -> int {
    max(nearest(UNLIMITED_QPS as int, rate as int), 1)
}

/// The rate at which one query every `interval_ns` nanoseconds is sent.
pub open spec fn rate_of(interval_ns: int) -> int {
    UNLIMITED_QPS as int / interval_ns
}

/// The rate at which `queries` over `nanos` nanoseconds were sent. Over no time at all,
/// any queries are at the greatest rate there is, and no queries at none.
pub open spec fn observed_rate(queries: int, nanos: int) -> int {
    if nanos > 0 {
        queries * UNLIMITED_QPS / nanos
    } else if queries > 0 {
        NanoQps::MAX as int
    } else {
        0
    }
}

/// The rate to operate at below a rate that was too high: 85 hundredths of it,
/// and at least [`MIN_RATE_QPS`].
pub open spec fn retreat(rate: int) -> int {
    max(rate * 17 / 20, MIN_RATE_QPS as int)
}

/// The rate that one step of recovery climbs to: a quarter more, rounded up so that
/// every step climbs.
pub open spec fn growth(rate: int) -> int {
    (rate * 5 + 3) / 4
}

/// Whether `lost` of `total` is more than two in a hundred.
pub open spec fn is_lossy(lost: int, total: int) -> bool {
    lost * 100 > total * 2
}

/// At or above [`UNLIMITED_QPS`] the spacing is one nanosecond.
proof fn lemma_unlimited_spacing(rate: NanoQps)
    requires
        rate >= UNLIMITED_QPS,
    ensures
        interval_for(rate) == 1,
{
    let a = 2 * UNLIMITED_QPS + rate as int;
    let b = 2 * (rate as int);
    assert(a / b <= 1) by (nonlinear_arith)
        requires
            0 <= a < 2 * b,
            b > 0,
    ;
}

/// Below [`UNLIMITED_QPS`] the nearest spacing is between one nanosecond and the
/// spacing of the slowest rate.
proof fn lemma_limited_spacing(rate: NanoQps)
    requires
        0 < rate < UNLIMITED_QPS,
    ensures
        1 <= nearest(UNLIMITED_QPS as int, rate as int) <= UNLIMITED_QPS,
{
    let u = UNLIMITED_QPS as int;
    let r = rate as int;
    assert(1 <= (2 * u + r) / (2 * r)) by (nonlinear_arith)
        requires
            0 < r < u,
    ;
    assert((2 * u + r) / (2 * r) <= u) by (nonlinear_arith)
        requires
            0 < r < u,
            u == 1_000_000_000_000_000_000,
    ;
}

/// The spacing of a rate.
pub fn spacing(rate: NanoQps) -> (interval_ns: u64)
    requires
        rate > 0,
    ensures
        interval_ns == interval_for(rate),
        1 <= interval_ns <= UNLIMITED_QPS,
{
    if rate >= UNLIMITED_QPS {
        proof {
            lemma_unlimited_spacing(rate);
        }
        1
    } else {
        proof {
            lemma_limited_spacing(rate);
        }
        ((2 * UNLIMITED_QPS + rate) / (2 * rate)) as u64
    }
}

/// A slower rate never asks for a shorter spacing.
pub proof fn law_spacing_is_antitone(slow: NanoQps, fast: NanoQps)
    requires
        0 < slow <= fast,
    ensures
        interval_for(slow) >= interval_for(fast),
{
    let u = UNLIMITED_QPS as int;
    let s = slow as int;
    let f = fast as int;
    assert((2 * u + s) / (2 * s) >= (2 * u + f) / (2 * f)) by (nonlinear_arith)
        requires
            0 < s <= f,
            u > 0,
    ;
}

/// The rate at which `queries` over `nanos` nanoseconds were sent.
pub fn rate_observed(queries: u64, nanos: u128) -> (rate: NanoQps)
    ensures
        rate == observed_rate(queries as int, nanos as int),
{
    assert(queries * UNLIMITED_QPS <= u64::MAX * UNLIMITED_QPS);
    if nanos > 0 {
        queries as u128 * UNLIMITED_QPS / nanos
    } else if queries > 0 {
        NanoQps::MAX
    } else {
        0
    }
}

/// The rate to operate at below a rate that was too high.
pub fn retreat_from(rate: NanoQps) -> (target: NanoQps)
    ensures
        target == retreat(rate as int),
{
    let target: NanoQps = rate / 20 * 17 + rate % 20 * 17 / 20;
    if target >= MIN_RATE_QPS {
        target
    } else {
        MIN_RATE_QPS
    }
}

/// The rate that one step of recovery climbs to, or `cap` where that is less.
pub fn grow_toward(rate: NanoQps, cap: NanoQps) -> (grown: NanoQps)
    requires
        rate <= cap,
    ensures
        grown == min(growth(rate as int), cap as int),
{
    let step: NanoQps = rate / 4 + if rate % 4 == 0 {
        0
    } else {
        1
    };
    if step >= cap - rate {
        cap
    } else {
        rate + step
    }
}

/// Whether `lost` of `total` is more than two in a hundred.
pub fn lossy(lost: u64, total: u64) -> (is: bool)
    ensures
        is == is_lossy(lost as int, total as int),
{
    lost as u128 * 100 > total as u128 * 2
}

/// Retreating from a rate above [`MIN_RATE_QPS`] lowers it, and never below that.
pub proof fn law_retreat_lowers_the_rate(rate: NanoQps)
    ensures
        rate > MIN_RATE_QPS ==> MIN_RATE_QPS <= retreat(rate as int) < rate,
        rate <= MIN_RATE_QPS ==> retreat(rate as int) == MIN_RATE_QPS,
{
}

/// A rate and its spacing multiply to a second: the spacing of `rate` billionths of a
/// query per second is 10^18 nanoseconds over that, to the nearest nanosecond. It is one
/// nanosecond from a billion queries per second on.
pub proof fn law_a_rate_and_its_spacing_make_a_second(rate: NanoQps)
    requires
        rate > 0,
    ensures
        interval_for(rate) >= 1,
        rate <= 1_000_000_000_000_000_000 ==> -(rate as int) <= 2 * (interval_for(rate) * rate
            - 1_000_000_000_000_000_000) <= rate,
        rate >= 1_000_000_000_000_000_000 ==> interval_for(rate) == 1,
{
    let u: int = 1_000_000_000_000_000_000;
    let r = rate as int;
    if r >= u {
        lemma_unlimited_spacing(rate);
    } else {
        lemma_limited_spacing(rate);
        let i = (2 * u + r) / (2 * r);
        assert(-r <= 2 * (i * r - u) <= r) by (nonlinear_arith)
            requires
                i == (2 * u + r) / (2 * r),
                0 < r,
                u > 0,
        ;
    }
}

/// The rate of a spacing is the greatest at which that spacing fits into a second.
pub proof fn law_the_rate_of_a_spacing_fits_a_second(interval_ns: int)
    requires
        1 <= interval_ns,
    ensures
        rate_of(interval_ns) * interval_ns <= 1_000_000_000_000_000_000,
        1_000_000_000_000_000_000 < (rate_of(interval_ns) + 1) * interval_ns,
{
    let u: int = 1_000_000_000_000_000_000;
    let i = interval_ns;
    assert(u / i * i <= u < (u / i + 1) * i) by (nonlinear_arith)
        requires
            i >= 1,
    ;
}

/// What was sent over a span is the rate times the span: `queries` in `nanos` nanoseconds
/// are `queries` over `nanos` of a billion queries per second, rounded down.
pub proof fn law_an_observed_rate_accounts_for_the_queries(queries: u64, nanos: u128)
    requires
        nanos > 0,
    ensures
        observed_rate(queries as int, nanos as int) * nanos <= queries
            * 1_000_000_000_000_000_000,
        queries * 1_000_000_000_000_000_000 < (observed_rate(queries as int, nanos as int) + 1)
            * nanos,
        0 <= observed_rate(queries as int, nanos as int) <= NanoQps::MAX,
{
    let all = queries * 1_000_000_000_000_000_000;
    let n = nanos as int;
    assert(all / n * n <= all < (all / n + 1) * n && 0 <= all / n <= all) by (nonlinear_arith)
        requires
            n >= 1,
            all >= 0,
    ;
}

/// The rate below one that was too high is 85 hundredths of it, rounded down, and never
/// less than one query per second.
pub proof fn law_retreat_is_to_85_hundredths(rate: NanoQps)
    ensures
        retreat(rate as int) >= 1_000_000_000,
        100 * retreat(rate as int) <= 85 * rate || retreat(rate as int) == 1_000_000_000,
        85 * rate < 100 * (retreat(rate as int) + 1),
{
}

/// A step of recovery is to a quarter more, rounded up.
pub proof fn law_growth_is_by_a_quarter(rate: NanoQps)
    ensures
        4 * growth(rate as int) >= 5 * rate,
        4 * (growth(rate as int) - 1) < 5 * rate,
{
}

/// Two lost in a hundred are tolerated, and one more than that in any multiple is not.
pub proof fn law_more_than_two_in_a_hundred_are_too_many(lost: u64, total: u64)
    ensures
        lost * 50 <= total ==> !is_lossy(lost as int, total as int),
        lost * 50 > total ==> is_lossy(lost as int, total as int),
{
}

} // verus!

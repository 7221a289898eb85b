//! Interval pacing of dispatch.

use std::time::Duration;

use vstd::prelude::*;

use crate::rate::{
    interval_for, law_a_rate_and_its_spacing_make_a_second, max, min, rate_of, spacing, NanoQps,
    UNLIMITED_QPS,
};
use crate::span::duration_nanos;

verus! {

/// Deficits shorter than this are not slept off.
///
/// A timer has a granularity of about a millisecond, so a sleep of ten
/// microseconds returns after a whole one and would hold throughput at a thousand
/// queries a second. The cursor has already advanced by then, so later callers
/// accumulate the debt until it is worth a real sleep.
pub const SUB_MS_SKIP_THRESHOLD_NS: u64 = 1_000_000;

/// Rate limiter around a single cursor.
///
/// The cursor is the time, in nanoseconds since some epoch of the caller's, at
/// which the next permit becomes available. [`RateLimiter::acquire`] advances the
/// cursor by one interval and hands out the old position as a dispatch slot.
///
/// Dispatch is interval-paced rather than token-bucketed: there is no burst
/// allowance, so a resolver never sees a thundering herd on the first tick.
pub struct RateLimiter {
    interval_ns: u64,
    next_ns: u64,
}

/// What a [`RateLimiter`] holds: the spacing between permits and the time of the
/// next one.
pub struct LimiterView {
    pub interval_ns: int,
    pub next_ns: int,
}

impl View for RateLimiter {
    type V = LimiterView;

    closed spec fn view(&self) -> LimiterView {
        LimiterView { interval_ns: self.interval_ns as int, next_ns: self.next_ns as int }
    }
}

impl LimiterView {
    /// Permits are at least a nanosecond apart, and all times fit in 64 bits.
    pub open spec fn wf(self) -> bool {
        &&& 1 <= self.interval_ns <= UNLIMITED_QPS
        &&& 0 <= self.next_ns <= u64::MAX
    }

    /// The slot that a caller arriving at `now_ns` is given: the cursor, or now
    /// where the cursor has fallen behind.
    pub open spec fn slot(self, now_ns: int) -> int {
        max(self.next_ns, now_ns)
    }

    /// The limiter once a caller arriving at `now_ns` has been served.
    pub open spec fn advance(self, now_ns: int) -> LimiterView {
        LimiterView { next_ns: min(self.slot(now_ns) + self.interval_ns, u64::MAX as int), ..self }
    }

    /// The limiter once callers arriving at `arrivals`, in this order, have been
    /// served.
    pub open spec fn advance_all(self, arrivals: Seq<u64>) -> LimiterView
        decreases arrivals.len(),
    {
        if arrivals.len() == 0 {
            self
        } else {
            self.advance_all(arrivals.drop_last()).advance(arrivals.last() as int)
        }
    }

    /// The slot given to the caller at position `i` of `arrivals`.
    pub open spec fn slot_of(self, arrivals: Seq<u64>, i: int) -> int {
        self.advance_all(arrivals.take(i)).slot(arrivals[i] as int)
    }

    /// The limiter with its rate changed to `rate`.
    pub open spec fn with_rate(self, rate: NanoQps) -> LimiterView {
        LimiterView { interval_ns: interval_for(rate), ..self }
    }
}

/// The nanoseconds that a caller whose slot is `slot_ns` sleeps at `now_ns`.
pub open spec fn pause_ns(slot_ns: int, now_ns: int) -> int {
    if slot_ns - now_ns >= SUB_MS_SKIP_THRESHOLD_NS {
        slot_ns - now_ns
    } else {
        0
    }
}

impl RateLimiter {
    /// Build a limiter pacing dispatch at `rate`.
    pub fn new(rate: NanoQps) -> (limiter: RateLimiter)
        requires
            rate > 0,
        ensures
            limiter@.wf(),
            limiter@ == (LimiterView { interval_ns: interval_for(rate), next_ns: 0 }),
    {
        RateLimiter { interval_ns: spacing(rate), next_ns: 0 }
    }

    /// Change the pacing rate. Takes effect on the next acquire, without
    /// disturbing slots already handed out.
    pub fn set_rate(&mut self, rate: NanoQps)
        requires
            old(self)@.wf(),
            rate > 0,
        ensures
            final(self)@.wf(),
            final(self)@ == old(self)@.with_rate(rate),
    {
        self.interval_ns = spacing(rate);
    }

    /// The current pacing rate.
    pub fn rate(&self) -> (rate: NanoQps)
        requires
            self@.wf(),
        ensures
            rate == rate_of(self@.interval_ns),
            0 < rate <= UNLIMITED_QPS,
    {
        proof {
            let u = UNLIMITED_QPS as int;
            let i = self@.interval_ns;
            assert(1 <= u / i <= u) by (nonlinear_arith)
                requires
                    1 <= i <= u,
            ;
        }
        UNLIMITED_QPS / self.interval_ns as u128
    }

    /// The current spacing between consecutive permits.
    pub fn interval(&self) -> (interval: Duration)
        ensures
            duration_nanos(interval) == self@.interval_ns,
    {
        Duration::from_nanos(self.interval_ns)
    }

    /// Take the next dispatch slot, at `now_ns`.
    ///
    /// The slot is never before `now_ns`: an idle limiter resets to now instead of
    /// letting a stockpile of back-dated slots leak out as a burst.
    pub fn acquire(&mut self, now_ns: u64) -> (slot_ns: u64)
        requires
            old(self)@.wf(),
        ensures
            final(self)@.wf(),
            slot_ns == old(self)@.slot(now_ns as int),
            final(self)@ == old(self)@.advance(now_ns as int),
    {
        let slot_ns: u64 = if self.next_ns >= now_ns {
            self.next_ns
        } else {
            now_ns
        };
        self.next_ns = slot_ns.saturating_add(self.interval_ns);
        slot_ns
    }

    /// How long the holder of `slot_ns` sleeps when it is `now_ns`. `None` where
    /// the slot has come or is too near for a timer to hit.
    pub fn pause(slot_ns: u64, now_ns: u64) -> (pause: Option<Duration>)
        ensures
            pause is Some <==> pause_ns(slot_ns as int, now_ns as int) > 0,
            pause matches Some(d) ==> duration_nanos(d) == pause_ns(slot_ns as int, now_ns as int),
    {
        if slot_ns <= now_ns {
            return None;
        }
        let deficit_ns: u64 = slot_ns - now_ns;
        if deficit_ns >= SUB_MS_SKIP_THRESHOLD_NS {
            Some(Duration::from_nanos(deficit_ns))
        } else {
            None
        }
    }
}

/// Serving callers keeps a limiter's bounds and its spacing.
proof fn lemma_advance_all_wf(limiter: LimiterView, arrivals: Seq<u64>)
    requires
        limiter.wf(),
    ensures
        limiter.advance_all(arrivals).wf(),
        limiter.advance_all(arrivals).interval_ns == limiter.interval_ns,
    decreases arrivals.len(),
{
    if arrivals.len() > 0 {
        lemma_advance_all_wf(limiter, arrivals.drop_last());
    }
}

/// There is no burst: of any callers served in a row, one comes at least as many
/// intervals after another as there are callers between them. The end of the
/// clock is the one exception.
pub proof fn law_slots_are_spaced(limiter: LimiterView, arrivals: Seq<u64>, i: int, j: int)
    requires
        limiter.wf(),
        0 <= i <= j < arrivals.len(),
    ensures
        limiter.slot_of(arrivals, j) >= min(
            limiter.slot_of(arrivals, i) + (j - i) * limiter.interval_ns,
            u64::MAX as int,
        ),
    decreases j - i,
{
    if i < j {
        law_slots_are_spaced(limiter, arrivals, i, j - 1);
        lemma_advance_all_wf(limiter, arrivals.take(j - 1));
        assert(arrivals.take(j).drop_last() =~= arrivals.take(j - 1));
        assert(arrivals.take(j).last() == arrivals[j - 1]);
        let d = limiter.interval_ns;
        assert((j - i) * d == (j - 1 - i) * d + d) by (nonlinear_arith);
        assert(limiter.advance_all(arrivals.take(j)) == limiter.advance_all(
            arrivals.take(j - 1),
        ).advance(arrivals[j - 1] as int));
    } else {
        assert((j - i) * limiter.interval_ns == 0) by (nonlinear_arith)
            requires
                i == j,
        ;
    }
}

/// An idle period stockpiles nothing: whatever went before, a caller's slot is
/// not before its arrival.
pub proof fn law_slots_are_never_back_dated(limiter: LimiterView, arrivals: Seq<u64>, i: int)
    requires
        limiter.wf(),
        0 <= i < arrivals.len(),
    ensures
        limiter.slot_of(arrivals, i) >= arrivals[i],
{
}

/// A caller that sleeps as it is told to dispatches at most a millisecond before
/// its slot, whenever it looks at the clock.
pub proof fn law_dispatch_is_at_most_a_tick_early(slot_ns: u64, now_ns: u64)
    ensures
        now_ns + pause_ns(slot_ns as int, now_ns as int) > slot_ns - SUB_MS_SKIP_THRESHOLD_NS,
        now_ns < slot_ns ==> now_ns + pause_ns(slot_ns as int, now_ns as int) <= slot_ns,
{
}

/// When the caller at position `i` of `arrivals` dispatches, if it sleeps as it is
/// told to.
pub open spec fn dispatch_of(limiter: LimiterView, arrivals: Seq<u64>, i: int) -> int {
    arrivals[i] + pause_ns(limiter.slot_of(arrivals, i), arrivals[i] as int)
}

/// The aggregate rate is capped although short deficits are not slept off: between two
/// dispatches there is time for all the intervals between them, but for less than a
/// millisecond. The end of the clock is the one exception.
pub proof fn law_the_aggregate_rate_is_capped(
    limiter: LimiterView,
    arrivals: Seq<u64>,
    i: int,
    j: int,
)
    requires
        limiter.wf(),
        0 <= i <= j < arrivals.len(),
        limiter.slot_of(arrivals, j) < u64::MAX,
    ensures
        dispatch_of(limiter, arrivals, j) - dispatch_of(limiter, arrivals, i) > (j - i)
            * limiter.interval_ns - SUB_MS_SKIP_THRESHOLD_NS,
{
    law_slots_are_spaced(limiter, arrivals, i, j);
    law_slots_are_never_back_dated(limiter, arrivals, i);
    law_slots_are_never_back_dated(limiter, arrivals, j);
}

/// Changing the rate moves no slot: the next caller gets the slot that it would
/// have got, and only the spacing after that slot is new.
pub proof fn law_a_rate_change_keeps_the_next_slot(
    limiter: LimiterView,
    rate: NanoQps,
    now_ns: u64,
)
    requires
        limiter.wf(),
        rate > 0,
    ensures
        limiter.with_rate(rate).slot(now_ns as int) == limiter.slot(now_ns as int),
        limiter.with_rate(rate).advance(now_ns as int).next_ns == min(
            limiter.slot(now_ns as int) + interval_for(rate),
            u64::MAX as int,
        ),
{
}

/// A caller is served at the cursor, or at once where that has passed, and the next one
/// no sooner than an interval later: the slot is the later of the two times, and the
/// cursor then stands one interval after the slot, or at the end of the clock.
pub proof fn law_a_slot_moves_the_cursor_by_an_interval(limiter: LimiterView, now_ns: u64)
    requires
        limiter.wf(),
    ensures
        ({
            let slot = limiter.slot(now_ns as int);
            let next = limiter.advance(now_ns as int);
            &&& slot >= now_ns
            &&& slot >= limiter.next_ns
            &&& slot == now_ns || slot == limiter.next_ns
            &&& slot + limiter.interval_ns <= u64::MAX ==> next.next_ns == slot
                + limiter.interval_ns
            &&& slot + limiter.interval_ns > u64::MAX ==> next.next_ns == u64::MAX
            &&& next.interval_ns == limiter.interval_ns
        }),
{
}

/// The whole of a deficit of a millisecond or more is slept off, and nothing of a
/// shorter one.
pub proof fn law_a_deficit_is_slept_off_whole(slot_ns: u64, now_ns: u64)
    ensures
        now_ns + 1_000_000 <= slot_ns ==> now_ns + pause_ns(slot_ns as int, now_ns as int)
            == slot_ns,
        now_ns + 1_000_000 > slot_ns ==> pause_ns(slot_ns as int, now_ns as int) == 0,
{
}

/// A limiter that paces at `rate` serves no more callers than the rate says: from one
/// slot to another there are 10^18 nanoseconds over the rate for every caller between
/// them, less half a nanosecond each. The end of the clock is the one exception.
pub proof fn law_slots_keep_to_the_rate(
    limiter: LimiterView,
    rate: NanoQps,
    arrivals: Seq<u64>,
    i: int,
    j: int,
)
    requires
        limiter.wf(),
        0 < rate <= 1_000_000_000_000_000_000,
        0 <= i <= j < arrivals.len(),
        limiter.with_rate(rate).slot_of(arrivals, j) < u64::MAX,
    ensures
        2 * rate * (limiter.with_rate(rate).slot_of(arrivals, j) - limiter.with_rate(rate).slot_of(
            arrivals,
            i,
        )) >= (j - i) * (2 * 1_000_000_000_000_000_000 - rate),
{
    let paced = limiter.with_rate(rate);
    law_a_rate_and_its_spacing_make_a_second(rate);
    let d = paced.interval_ns;
    let r = rate as int;
    let n = j - i;
    let u: int = 1_000_000_000_000_000_000;
    assert(d <= u) by (nonlinear_arith)
        requires
            2 * (d * r - u) <= r,
            1 <= r <= u,
            d >= 1,
            u == 1_000_000_000_000_000_000,
    ;
    assert(paced.wf());
    law_slots_are_spaced(paced, arrivals, i, j);
    let span = paced.slot_of(arrivals, j) - paced.slot_of(arrivals, i);
    assert(2 * r * span >= n * (2 * u - r)) by (nonlinear_arith)
        requires
            span >= n * d,
            2 * (d * r) >= 2 * u - r,
            r >= 1,
            n >= 0,
    ;
}

} // verus!

//! Health, capacity and pacing of one resolver.

use std::time::Duration;

use vstd::prelude::*;

use crate::address::Endpoint;
use crate::config::{at_least_one, BlastDNSConfig};
use crate::limiter::{LimiterView, RateLimiter};
use crate::permits::{
    count_permits, free_permits, max_permits, new_semaphore, return_permit, take_permit,
};
use crate::rate::{
    interval_for, law_a_rate_and_its_spacing_make_a_second,
    law_the_rate_of_a_spacing_fits_a_second, max, min, rate_of, NanoQps, UNLIMITED_QPS,
};
use crate::span::{duration_nanos, longer};

verus! {

/// How long a minimum-RTT observation stays authoritative before the window
/// resets. Without this a single lucky sample would pin the baseline forever.
pub const RTT_MIN_WINDOW_NS: u64 = 30_000_000_000;

/// The newest sample weighs one part in this many in the RTT moving average, as in
/// TCP.
pub const RTT_EWMA_PARTS: u64 = 8;

/// Shortest deadline in milliseconds that the startup probe will use, whatever the
/// request timeout is.
pub const PROBE_DEADLINE_FLOOR_MS: u64 = 2000;

/// Counter snapshot for one resolver.
///
/// Once every dispatched query has settled, `attempted` equals `answered + empty +
/// timeout + error`, so a caller can account for every dispatched query.
#[derive(Debug, Default)]
pub struct ResolverStats {
    pub resolver: String,
    pub attempted: u64,
    pub answered: u64,
    pub empty: u64,
    pub timeout: u64,
    pub error: u64,
    pub rtt_mean_us: u64,
    pub rtt_min_us: u64,
    pub purgatory_entries: u64,
    /// Responses that arrived truncated and were refetched over TCP.
    pub truncated: u64,
    /// Current pacing rate, or `None` when unthrottled. Set by the adaptive
    /// controller; a value here means this resolver is being held below the rate
    /// at which it started losing queries.
    pub rate_qps: Option<NanoQps>,
}

/// The counters of one resolver.
#[derive(Clone, Copy, Debug, PartialEq, Eq, Structural)]
pub struct Counters {
    pub attempted: u64,
    pub answered: u64,
    pub empty: u64,
    pub timeout: u64,
    pub error: u64,
    pub truncated: u64,
    pub purgatory_entries: u64,
}

/// The round-trip times of one resolver, in microseconds.
#[derive(Clone, Copy, Debug, PartialEq, Eq, Structural)]
pub struct RttStats {
    /// Moving average. Zero before the first sample.
    pub mean_us: u64,
    /// Least sample of the current window. Zero before the first sample.
    pub min_us: u64,
    /// When the current window opened.
    pub window_ns: u64,
}

/// Health, capacity and pacing of a single resolver.
///
/// Times are nanoseconds since an epoch that the whole pool shares.
pub struct ResolverHealth {
    resolver: Endpoint,
    request_timeout: Duration,
    persistent_socket: bool,
    purgatory_threshold: usize,
    purgatory_sentence: Duration,
    capacity: usize,
    inflight: tokio::sync::Semaphore,
    limiter: RateLimiter,
    active: bool,
    consecutive_errors: u64,
    benched_until_ns: u64,
    counters: Counters,
    rtt: RttStats,
}

/// What a [`ResolverHealth`] holds.
#[verifier::ext_equal]
pub struct HealthView {
    pub resolver: Endpoint,
    pub request_timeout: Duration,
    pub persistent_socket: bool,
    /// How many errors in a row, with no response among them, earn a sentence. Zero
    /// where none do.
    pub purgatory_threshold: int,
    pub purgatory_sentence: Duration,
    /// How many queries may be in flight at once.
    pub capacity: int,
    /// How many more may be sent now.
    pub free: int,
    pub limiter: LimiterView,
    pub active: bool,
    pub consecutive_errors: u64,
    pub benched_until_ns: u64,
    pub counters: Counters,
    pub rtt: RttStats,
}

/// A counter after one more event. It starts over after the greatest number.
pub open spec fn bumped(count: u64) -> u64 {
    if count < u64::MAX {
        (count + 1) as u64
    } else {
        0
    }
}

/// A counter after one more event.
pub fn bump(count: u64) -> (next: u64)
    ensures
        next == bumped(count),
{
    count.wrapping_add(1)
}

impl RttStats {
    /// The moving average after `sample`.
    pub open spec fn mean_after(self, sample: int) -> int {
        if self.mean_us == 0 {
            sample
        } else {
            max(
                self.mean_us - self.mean_us as int / RTT_EWMA_PARTS as int + sample
                    / RTT_EWMA_PARTS as int,
                1,
            )
        }
    }

    /// Whether a sample at `now_ns` opens a new window: there was none, or it has
    /// lapsed.
    pub open spec fn reopens(self, now_ns: int) -> bool {
        self.min_us == 0 || now_ns - self.window_ns > RTT_MIN_WINDOW_NS
    }

    /// The round-trip times after `sample` arrived at `now_ns`.
    pub open spec fn after(self, sample: int, now_ns: int) -> RttStats {
        RttStats {
            mean_us: self.mean_after(sample) as u64,
            min_us: if self.reopens(now_ns) {
                sample as u64
            } else {
                min(sample, self.min_us as int) as u64
            },
            window_ns: if self.reopens(now_ns) {
                now_ns as u64
            } else {
                self.window_ns
            },
        }
    }

    /// Take a sample of `sample` microseconds that arrived at `now_ns`.
    fn record(&mut self, sample: u64, now_ns: u64)
        requires
            sample >= 1,
        ensures
            *final(self) == old(self).after(sample as int, now_ns as int),
    {
        let mean: u64 = if self.mean_us == 0 {
            sample
        } else {
            self.mean_us - self.mean_us / RTT_EWMA_PARTS + sample / RTT_EWMA_PARTS
        };
        self.mean_us = if mean >= 1 {
            mean
        } else {
            1
        };
        let lapsed: bool = now_ns.saturating_sub(self.window_ns) > RTT_MIN_WINDOW_NS;
        if self.min_us == 0 || lapsed {
            self.min_us = sample;
            self.window_ns = now_ns;
        } else if sample < self.min_us {
            self.min_us = sample;
        }
    }
}

impl View for ResolverHealth {
    type V = HealthView;

    closed spec fn view(&self) -> HealthView {
        HealthView {
            resolver: self.resolver,
            request_timeout: self.request_timeout,
            persistent_socket: self.persistent_socket,
            purgatory_threshold: self.purgatory_threshold as int,
            purgatory_sentence: self.purgatory_sentence,
            capacity: self.capacity as int,
            free: free_permits(self.inflight) as int,
            limiter: self.limiter@,
            active: self.active,
            consecutive_errors: self.consecutive_errors,
            benched_until_ns: self.benched_until_ns,
            counters: self.counters,
            rtt: self.rtt,
        }
    }
}

/// The sentence as a number of nanoseconds of 64 bits.
pub open spec fn sentence_ns(sentence: Duration) -> int {
    duration_nanos(sentence) as int % 0x1_0000_0000_0000_0000
}

/// The round-trip sample in microseconds that `rtt` is: a 64-bit number, at least
/// one.
pub open spec fn rtt_sample(rtt: Duration) -> int {
    max(duration_nanos(rtt) as int / 1000 % 0x1_0000_0000_0000_0000, 1)
}

impl HealthView {
    /// At least one query may be in flight, no more are in flight than may be, and
    /// the pacing is sound.
    pub open spec fn wf(self) -> bool {
        &&& 1 <= self.capacity <= max_permits()
        &&& 0 <= self.free <= self.capacity
        &&& 0 <= self.purgatory_threshold <= usize::MAX
        &&& self.limiter.wf()
    }

    /// The queries in flight.
    pub open spec fn in_flight(self) -> int {
        self.capacity - self.free
    }

    /// Whether a purgatory sentence is being served at `now_ns`.
    pub open spec fn benched(self, now_ns: int) -> bool {
        self.benched_until_ns > now_ns
    }

    /// Whether the resolver may be selected at `now_ns`, given a free permit.
    pub open spec fn eligible(self, now_ns: int) -> bool {
        self.active && !self.benched(now_ns)
    }

    /// The end of a sentence that starts at `now_ns`.
    pub open spec fn release_ns(self, now_ns: int) -> int {
        now_ns + sentence_ns(self.purgatory_sentence)
    }

    /// Whether one more error, the one that `errors` counts last, earns a sentence.
    pub open spec fn sentences(self, errors: int) -> bool {
        &&& self.purgatory_threshold > 0
        &&& errors >= self.purgatory_threshold
        &&& duration_nanos(self.purgatory_sentence) > 0
    }

    /// Whether an error at `now_ns` can be recorded: where it earns a sentence, the end
    /// of that fits the clock.
    pub open spec fn can_err(self, now_ns: int) -> bool {
        self.sentences(bumped(self.consecutive_errors) as int) ==> self.release_ns(now_ns)
            <= u64::MAX
    }

    /// The resolver with one more query dispatched to it.
    pub open spec fn after_dispatch(self) -> HealthView {
        HealthView {
            counters: Counters { attempted: bumped(self.counters.attempted), ..self.counters },
            ..self
        }
    }

    /// The resolver with one more truncated response.
    pub open spec fn after_truncation(self) -> HealthView {
        HealthView {
            counters: Counters { truncated: bumped(self.counters.truncated), ..self.counters },
            ..self
        }
    }

    /// The resolver after a response. Both a real answer and an empty one mean that
    /// the resolver did its job, so both clear error pressure: errors before it are no
    /// longer in a row with errors after it.
    pub open spec fn after_response(self, rtt: Duration, had_answers: bool, now_ns: int) -> HealthView {
        HealthView {
            counters: if had_answers {
                Counters { answered: bumped(self.counters.answered), ..self.counters }
            } else {
                Counters { empty: bumped(self.counters.empty), ..self.counters }
            },
            consecutive_errors: 0,
            rtt: self.rtt.after(rtt_sample(rtt), now_ns),
            ..self
        }
    }

    /// The resolver with a lost query counted, and no judgement passed on it yet.
    pub open spec fn with_loss(self, is_timeout: bool) -> HealthView {
        HealthView {
            counters: if is_timeout {
                Counters { timeout: bumped(self.counters.timeout), ..self.counters }
            } else {
                Counters { error: bumped(self.counters.error), ..self.counters }
            },
            consecutive_errors: bumped(self.consecutive_errors),
            ..self
        }
    }

    /// The resolver sent to purgatory at `now_ns`. The sentence discharges the
    /// failures that earned it, so the count starts over.
    pub open spec fn with_sentence(self, now_ns: int) -> HealthView {
        HealthView {
            benched_until_ns: self.release_ns(now_ns) as u64,
            counters: Counters {
                purgatory_entries: bumped(self.counters.purgatory_entries),
                ..self.counters
            },
            consecutive_errors: 0,
            ..self
        }
    }

    /// The resolver after a lost query at `now_ns`.
    pub open spec fn after_error(self, is_timeout: bool, now_ns: int) -> HealthView {
        let counted = self.with_loss(is_timeout);
        if self.sentences(counted.consecutive_errors as int) {
            counted.with_sentence(now_ns)
        } else {
            counted
        }
    }

    /// The resolver after a startup probe.
    pub open spec fn after_probe(self, alive: bool) -> HealthView {
        HealthView { active: self.active && alive, ..self }
    }

    /// The resolver with `free` permits left.
    pub open spec fn with_free(self, free: int) -> HealthView {
        HealthView { free, ..self }
    }

    /// The resolver paced at `rate`.
    pub open spec fn with_rate(self, rate: NanoQps) -> HealthView {
        HealthView { limiter: self.limiter.with_rate(rate), ..self }
    }
}

/// A resolver in good health: active, all permits free, nothing counted, paced
/// without limit.
pub open spec fn healthy(resolver: Endpoint, config: BlastDNSConfig) -> HealthView {
    HealthView {
        resolver,
        request_timeout: config.request_timeout,
        persistent_socket: config.persistent_socket,
        purgatory_threshold: config.purgatory_threshold as int,
        purgatory_sentence: config.purgatory_sentence,
        capacity: max(config.max_inflight_per_resolver as int, 1),
        free: max(config.max_inflight_per_resolver as int, 1),
        limiter: LimiterView { interval_ns: interval_for(UNLIMITED_QPS), next_ns: 0 },
        active: true,
        consecutive_errors: 0,
        benched_until_ns: 0,
        counters: Counters {
            attempted: 0,
            answered: 0,
            empty: 0,
            timeout: 0,
            error: 0,
            truncated: 0,
            purgatory_entries: 0,
        },
        rtt: RttStats { mean_us: 0, min_us: 0, window_ns: 0 },
    }
}

impl ResolverHealth {
    /// A resolver in good health: active, all permits free, nothing counted, paced
    /// without limit.
    pub fn new(resolver: Endpoint, config: &BlastDNSConfig) -> (health: ResolverHealth)
        requires
            config.max_inflight_per_resolver <= max_permits(),
        ensures
            health@.wf(),
            health@ == healthy(resolver, *config),
    {
        let capacity: usize = at_least_one(config.max_inflight_per_resolver);
        ResolverHealth {
            resolver,
            request_timeout: config.request_timeout,
            persistent_socket: config.persistent_socket,
            purgatory_threshold: config.purgatory_threshold,
            purgatory_sentence: config.purgatory_sentence,
            capacity,
            inflight: new_semaphore(capacity),
            limiter: RateLimiter::new(UNLIMITED_QPS),
            active: true,
            consecutive_errors: 0,
            benched_until_ns: 0,
            counters: Counters {
                attempted: 0,
                answered: 0,
                empty: 0,
                timeout: 0,
                error: 0,
                truncated: 0,
                purgatory_entries: 0,
            },
            rtt: RttStats { mean_us: 0, min_us: 0, window_ns: 0 },
        }
    }

    /// Where this resolver listens.
    pub fn addr(&self) -> (resolver: Endpoint)
        ensures
            resolver == self@.resolver,
    {
        self.resolver
    }

    /// Take an in-flight slot without waiting, if one is free.
    pub fn try_acquire(&mut self) -> (taken: bool)
        requires
            old(self)@.wf(),
        ensures
            final(self)@.wf(),
            taken == (old(self)@.free > 0),
            final(self)@ == old(self)@.with_free(
                if taken {
                    old(self)@.free - 1
                } else {
                    old(self)@.free
                },
            ),
    {
        take_permit(&mut self.inflight)
    }

    /// Give back an in-flight slot that was taken.
    pub fn release(&mut self)
        requires
            old(self)@.wf(),
            old(self)@.in_flight() > 0,
        ensures
            final(self)@.wf(),
            final(self)@ == old(self)@.with_free(old(self)@.free + 1),
    {
        return_permit(&mut self.inflight)
    }

    /// How many queries are in flight to this resolver.
    pub fn in_flight(&self) -> (in_flight: usize)
        requires
            self@.wf(),
        ensures
            in_flight == self@.in_flight(),
    {
        self.capacity - count_permits(&self.inflight)
    }

    /// Whether this resolver is eligible for selection at all. A resolver that
    /// fails the startup probe is deactivated for the life of the client.
    pub fn is_active(&self) -> (active: bool)
        ensures
            active == self@.active,
    {
        self.active
    }

    /// Take this resolver's own dispatch slot at `now_ns`.
    pub fn acquire_rate(&mut self, now_ns: u64) -> (slot_ns: u64)
        requires
            old(self)@.wf(),
        ensures
            final(self)@.wf(),
            slot_ns == old(self)@.limiter.slot(now_ns as int),
            final(self)@ == (HealthView {
                limiter: old(self)@.limiter.advance(now_ns as int),
                ..old(self)@
            }),
    {
        self.limiter.acquire(now_ns)
    }

    /// This resolver's current pacing rate.
    pub fn rate(&self) -> (rate: NanoQps)
        requires
            self@.wf(),
        ensures
            rate == rate_of(self@.limiter.interval_ns),
            0 < rate <= UNLIMITED_QPS,
    {
        self.limiter.rate()
    }

    /// Set this resolver's pacing rate.
    pub fn set_rate(&mut self, rate: NanoQps)
        requires
            old(self)@.wf(),
            rate > 0,
        ensures
            final(self)@.wf(),
            final(self)@ == old(self)@.with_rate(rate),
    {
        self.limiter.set_rate(rate);
    }

    /// How long to wait for an answer under the configured request timeout.
    pub fn request_timeout(&self) -> (timeout: Duration)
        ensures
            timeout == self@.request_timeout,
    {
        self.request_timeout
    }

    /// Whether one socket is kept for this resolver's queries.
    pub fn persistent_socket(&self) -> (persistent: bool)
        ensures
            persistent == self@.persistent_socket,
    {
        self.persistent_socket
    }

    /// How long the startup probe waits for an answer.
    ///
    /// Judged on a looser deadline than a normal query. Deactivation lasts for the
    /// life of the client, and a root-NS query to a cold resolver is slower than
    /// the cached lookups a scan mostly makes.
    pub fn probe_deadline(&self) -> (deadline: Duration)
        ensures
            duration_nanos(deadline) == max(
                duration_nanos(self@.request_timeout) as int,
                PROBE_DEADLINE_FLOOR_MS * 1_000_000,
            ),
            duration_nanos(self@.request_timeout) >= 2_000_000_000 ==> duration_nanos(deadline)
                == duration_nanos(self@.request_timeout),
            duration_nanos(self@.request_timeout) < 2_000_000_000 ==> duration_nanos(deadline)
                == 2_000_000_000,
    {
        longer(self.request_timeout, Duration::from_millis(PROBE_DEADLINE_FLOOR_MS))
    }

    /// Take the result of the startup probe, deactivating this resolver if it did
    /// not answer.
    pub fn record_probe(&mut self, alive: bool)
        requires
            old(self)@.wf(),
        ensures
            final(self)@.wf(),
            final(self)@ == old(self)@.after_probe(alive),
    {
        if !alive {
            self.active = false;
        }
    }

    /// Whether this resolver is serving a purgatory sentence at `now_ns`.
    pub fn is_benched(&self, now_ns: u64) -> (benched: bool)
        ensures
            benched == self@.benched(now_ns as int),
    {
        self.benched_until_ns > now_ns
    }

    /// When this resolver is eligible again.
    pub fn benched_until_ns(&self) -> (until_ns: u64)
        ensures
            until_ns == self@.benched_until_ns,
    {
        self.benched_until_ns
    }

    /// The counters of this resolver.
    pub fn counters(&self) -> (counters: Counters)
        ensures
            counters == self@.counters,
    {
        self.counters
    }

    /// Count a truncated response.
    pub fn record_truncated(&mut self)
        requires
            old(self)@.wf(),
        ensures
            final(self)@.wf(),
            final(self)@ == old(self)@.after_truncation(),
    {
        self.counters.truncated = bump(self.counters.truncated);
    }

    /// Count a dispatched query.
    pub fn record_dispatch(&mut self)
        requires
            old(self)@.wf(),
        ensures
            final(self)@.wf(),
            final(self)@ == old(self)@.after_dispatch(),
    {
        self.counters.attempted = bump(self.counters.attempted);
    }

    /// Record a response from this resolver. `had_answers` distinguishes a real
    /// answer from an empty one (NXDOMAIN, NODATA); both mean the resolver did its
    /// job, so both clear error pressure.
    pub fn record_response(&mut self, rtt: Duration, had_answers: bool, now_ns: u64)
        requires
            old(self)@.wf(),
        ensures
            final(self)@.wf(),
            final(self)@ == old(self)@.after_response(rtt, had_answers, now_ns as int),
    {
        if had_answers {
            self.counters.answered = bump(self.counters.answered);
        } else {
            self.counters.empty = bump(self.counters.empty);
        }
        self.consecutive_errors = 0;
        let micros: u64 = (rtt.as_nanos() / 1000 % 0x1_0000_0000_0000_0000) as u64;
        let sample: u64 = if micros >= 1 {
            micros
        } else {
            1
        };
        self.rtt.record(sample, now_ns);
    }

    /// Whether an error at `now_ns` can be recorded: where it earns a sentence, the end
    /// of that fits the clock.
    pub fn can_record_error(&self, now_ns: u64) -> (can: bool)
        ensures
            can == self@.can_err(now_ns as int),
    {
        let sentence: u128 = self.purgatory_sentence.as_nanos();
        self.purgatory_threshold == 0 || bump(self.consecutive_errors)
            < self.purgatory_threshold as u64 || sentence == 0 || (sentence
            % 0x1_0000_0000_0000_0000) as u64 <= u64::MAX - now_ns
    }

    /// Record a query that this resolver lost, and bench it where that is the last
    /// failure that its threshold tolerates.
    pub fn record_error(&mut self, is_timeout: bool, now_ns: u64)
        requires
            old(self)@.wf(),
            old(self)@.can_err(now_ns as int),
        ensures
            final(self)@.wf(),
            final(self)@ == old(self)@.after_error(is_timeout, now_ns as int),
    {
        if is_timeout {
            self.counters.timeout = bump(self.counters.timeout);
        } else {
            self.counters.error = bump(self.counters.error);
        }
        let consecutive: u64 = bump(self.consecutive_errors);
        self.consecutive_errors = consecutive;
        if self.purgatory_threshold == 0 || consecutive < self.purgatory_threshold as u64 {
            return;
        }
        let sentence: u128 = self.purgatory_sentence.as_nanos();
        if sentence == 0 {
            return;
        }
        self.benched_until_ns = now_ns + (sentence % 0x1_0000_0000_0000_0000) as u64;
        self.counters.purgatory_entries = bump(self.counters.purgatory_entries);
        self.consecutive_errors = 0;
    }
}

/// A resolver's counters and pacing as a snapshot.
pub open spec fn is_snapshot(stats: ResolverStats, health: HealthView) -> bool {
    &&& stats.resolver@ == health.resolver.text()
    &&& stats.attempted == health.counters.attempted
    &&& stats.answered == health.counters.answered
    &&& stats.empty == health.counters.empty
    &&& stats.timeout == health.counters.timeout
    &&& stats.error == health.counters.error
    &&& stats.rtt_mean_us == health.rtt.mean_us
    &&& stats.rtt_min_us == health.rtt.min_us
    &&& stats.purgatory_entries == health.counters.purgatory_entries
    &&& stats.truncated == health.counters.truncated
    &&& stats.rate_qps == (if rate_of(health.limiter.interval_ns) < UNLIMITED_QPS {
        Some(rate_of(health.limiter.interval_ns) as NanoQps)
    } else {
        None
    })
}

impl ResolverHealth {
    /// A snapshot of this resolver's counters and pacing.
    pub fn stats(&self) -> (stats: ResolverStats)
        requires
            self@.wf(),
        ensures
            is_snapshot(stats, self@),
    {
        let rate: NanoQps = self.limiter.rate();
        ResolverStats {
            resolver: self.resolver.to_text(),
            attempted: self.counters.attempted,
            answered: self.counters.answered,
            empty: self.counters.empty,
            timeout: self.counters.timeout,
            error: self.counters.error,
            rtt_mean_us: self.rtt.mean_us,
            rtt_min_us: self.rtt.min_us,
            purgatory_entries: self.counters.purgatory_entries,
            truncated: self.counters.truncated,
            rate_qps: if rate < UNLIMITED_QPS {
                Some(rate)
            } else {
                None
            },
        }
    }
}

impl HealthView {
    /// The resolver after it lost queries, each a timeout or not, at the given
    /// times and in this order.
    pub open spec fn after_errors(self, losses: Seq<(bool, u64)>) -> HealthView
        decreases losses.len(),
    {
        if losses.len() == 0 {
            self
        } else {
            self.after_errors(losses.drop_last()).after_error(
                losses.last().0,
                losses.last().1 as int,
            )
        }
    }
}

impl Counters {
    /// The queries dispatched that no outcome was counted for.
    pub open spec fn unsettled(self) -> int {
        self.attempted - (self.answered + self.empty + self.timeout + self.error)
    }
}

/// Purgatory engages at the threshold: a resolver with no error pressure is left
/// alone by fewer losses in a row than its threshold, and is benched from the time
/// of the last by as many. Its pressure is then back at none, so another sentence
/// costs another full threshold.
pub proof fn law_purgatory_costs_a_full_threshold(health: HealthView, losses: Seq<(bool, u64)>)
    requires
        health.wf(),
        health.consecutive_errors == 0,
        health.purgatory_threshold > 0,
        duration_nanos(health.purgatory_sentence) > 0,
        losses.len() <= health.purgatory_threshold,
    ensures
        losses.len() < health.purgatory_threshold ==> {
            let after = health.after_errors(losses);
            &&& after.benched_until_ns == health.benched_until_ns
            &&& after.counters.purgatory_entries == health.counters.purgatory_entries
            &&& after.consecutive_errors == losses.len()
        },
        losses.len() == health.purgatory_threshold ==> {
            let after = health.after_errors(losses);
            &&& after.benched_until_ns == health.release_ns(losses.last().1 as int) as u64
            &&& after.counters.purgatory_entries == bumped(health.counters.purgatory_entries)
            &&& after.consecutive_errors == 0
        },
        health.after_errors(losses).purgatory_threshold == health.purgatory_threshold,
        health.after_errors(losses).purgatory_sentence == health.purgatory_sentence,
    decreases losses.len(),
{
    if losses.len() > 0 {
        law_purgatory_costs_a_full_threshold(health, losses.drop_last());
    }
}

/// A sentence ends: a resolver sentenced at `now_ns` is benched from then on until
/// the sentence is over, and not after.
pub proof fn law_a_sentence_lapses(health: HealthView, now_ns: u64, later_ns: u64)
    requires
        health.wf(),
        health.release_ns(now_ns as int) <= u64::MAX,
    ensures
        health.with_sentence(now_ns as int).benched(later_ns as int) <==> later_ns
            < health.release_ns(now_ns as int),
{
}

/// A threshold of zero, and a sentence of no length, bench nobody, however many queries
/// are lost: no sentence is passed, and none is counted.
pub proof fn law_purgatory_can_be_turned_off(health: HealthView, losses: Seq<(bool, u64)>)
    requires
        health.purgatory_threshold == 0 || duration_nanos(health.purgatory_sentence) == 0,
    ensures
        ({
            let after = health.after_errors(losses);
            &&& after.benched_until_ns == health.benched_until_ns
            &&& after.counters.purgatory_entries == health.counters.purgatory_entries
            &&& after.purgatory_threshold == health.purgatory_threshold
            &&& after.purgatory_sentence == health.purgatory_sentence
        }),
    decreases losses.len(),
{
    if losses.len() > 0 {
        law_purgatory_can_be_turned_off(health, losses.drop_last());
    }
}

/// A response clears error pressure, whether it holds an answer or is empty, and counts
/// as what it is. So only errors in a row earn a sentence: whatever went before the
/// response, a single error after it benches nobody whose threshold is above one.
pub proof fn law_responses_clear_error_pressure(
    health: HealthView,
    rtt: Duration,
    had_answers: bool,
    now_ns: u64,
    is_timeout: bool,
    later_ns: u64,
)
    requires
        health.wf(),
    ensures
        ({
            let relieved = health.after_response(rtt, had_answers, now_ns as int);
            let erring = relieved.after_error(is_timeout, later_ns as int);
            &&& relieved.consecutive_errors == 0
            &&& relieved.benched_until_ns == health.benched_until_ns
            &&& relieved.counters == (if had_answers {
                Counters { answered: bumped(health.counters.answered), ..health.counters }
            } else {
                Counters { empty: bumped(health.counters.empty), ..health.counters }
            })
            &&& health.purgatory_threshold != 1 ==> {
                &&& relieved.can_err(later_ns as int)
                &&& erring.benched_until_ns == health.benched_until_ns
                &&& erring.counters.purgatory_entries == health.counters.purgatory_entries
            }
        }),
{
}

/// Fewer errors since a response than the threshold bench nobody, whatever the resolver
/// lost before the response.
pub proof fn law_only_errors_in_a_row_earn_a_sentence(
    health: HealthView,
    rtt: Duration,
    had_answers: bool,
    now_ns: u64,
    losses: Seq<(bool, u64)>,
)
    requires
        health.wf(),
        losses.len() < health.purgatory_threshold,
    ensures
        ({
            let after = health.after_response(rtt, had_answers, now_ns as int).after_errors(losses);
            &&& after.benched_until_ns == health.benched_until_ns
            &&& after.counters.purgatory_entries == health.counters.purgatory_entries
        }),
{
    let relieved = health.after_response(rtt, had_answers, now_ns as int);
    if duration_nanos(health.purgatory_sentence) > 0 {
        law_purgatory_costs_a_full_threshold(relieved, losses);
    } else {
        law_purgatory_can_be_turned_off(relieved, losses);
    }
}

/// The counters account for every dispatched query: a dispatch adds one unsettled
/// query, a response or a loss settles one, and nothing else changes how many
/// there are. So with none unsettled, `attempted` equals `answered + empty +
/// timeout + error`. Counters that have reached their greatest number are left out.
pub proof fn law_counters_account_for_every_dispatch(
    health: HealthView,
    rtt: Duration,
    had_answers: bool,
    is_timeout: bool,
    now_ns: u64,
)
    requires
        health.wf(),
        health.counters.attempted < u64::MAX,
        health.counters.answered < u64::MAX,
        health.counters.empty < u64::MAX,
        health.counters.timeout < u64::MAX,
        health.counters.error < u64::MAX,
    ensures
        health.after_dispatch().counters.unsettled() == health.counters.unsettled() + 1,
        health.after_response(rtt, had_answers, now_ns as int).counters.unsettled()
            == health.counters.unsettled() - 1,
        health.after_error(is_timeout, now_ns as int).counters.unsettled()
            == health.counters.unsettled() - 1,
        health.after_truncation().counters.unsettled() == health.counters.unsettled(),
{
}

/// The mean round-trip time moves toward a new sample without jumping past it, and
/// the first sample is the mean.
pub proof fn law_the_mean_moves_toward_the_sample(rtt: RttStats, sample: u64, now_ns: u64)
    requires
        sample >= 1,
    ensures
        rtt.mean_us == 0 ==> rtt.after(sample as int, now_ns as int).mean_us == sample,
        rtt.mean_us != 0 ==> min(rtt.mean_us as int, sample as int) <= rtt.after(
            sample as int,
            now_ns as int,
        ).mean_us <= max(rtt.mean_us as int, sample as int),
{
}

/// Within its window, the least round-trip time is no more than any sample and
/// never rises. A sample that opens a window is the least.
pub proof fn law_the_minimum_bounds_its_window(rtt: RttStats, sample: u64, now_ns: u64)
    requires
        sample >= 1,
    ensures
        rtt.after(sample as int, now_ns as int).min_us <= sample,
        !rtt.reopens(now_ns as int) ==> rtt.after(sample as int, now_ns as int).min_us
            <= rtt.min_us && rtt.after(sample as int, now_ns as int).window_ns == rtt.window_ns,
        rtt.reopens(now_ns as int) ==> rtt.after(sample as int, now_ns as int).min_us == sample,
{
}

/// A resolver that failed the startup probe is out for good: nothing that is
/// recorded of it, and no later probe, makes it active.
pub proof fn law_deactivation_is_for_life(
    health: HealthView,
    alive: bool,
    rtt: Duration,
    had_answers: bool,
    is_timeout: bool,
    rate: NanoQps,
    free: int,
    now_ns: u64,
)
    requires
        health.wf(),
        rate > 0,
        !health.active,
    ensures
        !health.after_probe(alive).active,
        !health.after_dispatch().active,
        !health.after_truncation().active,
        !health.after_response(rtt, had_answers, now_ns as int).active,
        !health.after_error(is_timeout, now_ns as int).active,
        !health.with_rate(rate).active,
        !health.with_free(free).active,
        !health.eligible(now_ns as int),
{
}

/// No more queries are in flight to a resolver than its cap allows, and a resolver
/// at its cap has no permit left to give.
pub proof fn law_in_flight_never_exceeds_the_cap(health: HealthView)
    requires
        health.wf(),
    ensures
        0 <= health.in_flight() <= health.capacity,
        health.in_flight() == health.capacity <==> health.free == 0,
{
}

/// Purgatory lasts as long as it is configured to: a resolver under no error pressure
/// that loses as many queries in a row as its threshold says, the last of them at
/// `now_ns`, is benched at every time from then on until the whole sentence has passed,
/// and at none after. One sentence is counted.
pub proof fn law_a_sentence_is_served_in_full(
    health: HealthView,
    losses: Seq<(bool, u64)>,
    later_ns: u64,
)
    requires
        health.wf(),
        health.consecutive_errors == 0,
        losses.len() > 0,
        losses.len() == health.purgatory_threshold,
        duration_nanos(health.purgatory_sentence) > 0,
        losses.last().1 + duration_nanos(health.purgatory_sentence) <= u64::MAX,
    ensures
        ({
            let after = health.after_errors(losses);
            let until_ns = losses.last().1 + duration_nanos(health.purgatory_sentence);
            &&& after.benched_until_ns == until_ns
            &&& after.benched(later_ns as int) <==> later_ns < until_ns
            &&& health.active ==> (after.eligible(later_ns as int) <==> later_ns >= until_ns)
            &&& health.counters.purgatory_entries < u64::MAX
                ==> after.counters.purgatory_entries == health.counters.purgatory_entries + 1
        }),
{
    law_purgatory_costs_a_full_threshold(health, losses);
    lemma_losses_leave_the_rest(health, losses);
}

/// A loss that benches does so for the whole sentence, whatever went before: where a
/// resolver is sentenced at `now_ns`, it is benched from then on for as many nanoseconds
/// as the sentence has, which is taken modulo 2^64.
pub proof fn law_a_sentence_starts_with_the_loss(
    health: HealthView,
    is_timeout: bool,
    now_ns: u64,
)
    requires
        health.wf(),
        health.can_err(now_ns as int),
        health.consecutive_errors < u64::MAX,
        duration_nanos(health.purgatory_sentence) > 0,
        health.purgatory_threshold > 0,
        health.consecutive_errors + 1 >= health.purgatory_threshold,
    ensures
        ({
            let after = health.after_error(is_timeout, now_ns as int);
            let served = after.benched_until_ns - now_ns;
            &&& 0 <= served < 0x1_0000_0000_0000_0000
            &&& (duration_nanos(health.purgatory_sentence) - served) % 0x1_0000_0000_0000_0000
                == 0
            &&& duration_nanos(health.purgatory_sentence) < 0x1_0000_0000_0000_0000 ==> served
                == duration_nanos(health.purgatory_sentence)
            &&& after.consecutive_errors == 0
        }),
{
}

/// A loss that does not reach the threshold adds to the errors in a row and benches
/// nobody, and it can always be recorded. One that reaches it can be recorded where the
/// end of the sentence fits the clock.
pub proof fn law_a_loss_below_the_threshold_only_counts(
    health: HealthView,
    is_timeout: bool,
    now_ns: u64,
)
    requires
        health.wf(),
        health.consecutive_errors < u64::MAX,
    ensures
        health.consecutive_errors + 1 < health.purgatory_threshold || health.purgatory_threshold
            == 0 ==> {
            let after = health.after_error(is_timeout, now_ns as int);
            &&& health.can_err(now_ns as int)
            &&& after.consecutive_errors == health.consecutive_errors + 1
            &&& after.benched_until_ns == health.benched_until_ns
            &&& after.counters.purgatory_entries == health.counters.purgatory_entries
        },
        now_ns + duration_nanos(health.purgatory_sentence) <= u64::MAX ==> health.can_err(
            now_ns as int,
        ),
{
}

/// Losses change the counts of losses, the errors in a row and the sentence, and nothing
/// else.
proof fn lemma_losses_leave_the_rest(health: HealthView, losses: Seq<(bool, u64)>)
    ensures
        health.after_errors(losses).active == health.active,
    decreases losses.len(),
{
    if losses.len() > 0 {
        lemma_losses_leave_the_rest(health, losses.drop_last());
    }
}

/// What is recorded of a resolver leaves the rest of it alone: no event changes where it
/// listens, its timeouts, its cap, its free permits or its pacing; only a probe changes
/// whether it is active; only a loss moves the end of its sentence; and only a response
/// gives a round-trip time.
pub proof fn law_events_leave_the_rest_alone(
    health: HealthView,
    rtt: Duration,
    had_answers: bool,
    is_timeout: bool,
    alive: bool,
    now_ns: u64,
)
    requires
        health.wf(),
    ensures
        health.after_dispatch().same_but_for_records(health),
        health.after_truncation().same_but_for_records(health),
        health.after_response(rtt, had_answers, now_ns as int).same_but_for_records(health),
        health.after_error(is_timeout, now_ns as int).same_but_for_records(health),
        health.after_probe(alive).same_but_for_records(health),
        health.after_dispatch().active == health.active,
        health.after_truncation().active == health.active,
        health.after_response(rtt, had_answers, now_ns as int).active == health.active,
        health.after_error(is_timeout, now_ns as int).active == health.active,
        health.after_probe(alive).active <==> health.active && alive,
        health.after_dispatch().benched_until_ns == health.benched_until_ns,
        health.after_truncation().benched_until_ns == health.benched_until_ns,
        health.after_response(rtt, had_answers, now_ns as int).benched_until_ns
            == health.benched_until_ns,
        health.after_probe(alive).benched_until_ns == health.benched_until_ns,
        health.after_dispatch().consecutive_errors == health.consecutive_errors,
        health.after_truncation().consecutive_errors == health.consecutive_errors,
        health.after_probe(alive).consecutive_errors == health.consecutive_errors,
        health.after_dispatch().rtt == health.rtt,
        health.after_truncation().rtt == health.rtt,
        health.after_error(is_timeout, now_ns as int).rtt == health.rtt,
        health.after_probe(alive).rtt == health.rtt,
        health.after_probe(alive).counters == health.counters,
{
}

impl HealthView {
    /// Whether this is `other` but for what is recorded of events: counts, errors in a
    /// row, sentence, round-trip times, and whether it is active.
    pub open spec fn same_but_for_records(self, other: HealthView) -> bool {
        &&& self.resolver == other.resolver
        &&& self.request_timeout == other.request_timeout
        &&& self.persistent_socket == other.persistent_socket
        &&& self.purgatory_threshold == other.purgatory_threshold
        &&& self.purgatory_sentence == other.purgatory_sentence
        &&& self.capacity == other.capacity
        &&& self.free == other.free
        &&& self.limiter == other.limiter
    }
}

/// Every event raises the count that is named after it by one, and no other. Counts that
/// have reached their greatest number are left out.
pub proof fn law_each_event_raises_its_own_count(
    health: HealthView,
    rtt: Duration,
    now_ns: u64,
)
    requires
        health.wf(),
        health.counters.attempted < u64::MAX,
        health.counters.answered < u64::MAX,
        health.counters.empty < u64::MAX,
        health.counters.timeout < u64::MAX,
        health.counters.error < u64::MAX,
        health.counters.truncated < u64::MAX,
    ensures
        ({
            let was = health.counters;
            let timed_out = health.after_error(true, now_ns as int).counters;
            let erred = health.after_error(false, now_ns as int).counters;
            &&& health.after_dispatch().counters == (Counters {
                attempted: (was.attempted + 1) as u64,
                ..was
            })
            &&& health.after_truncation().counters == (Counters {
                truncated: (was.truncated + 1) as u64,
                ..was
            })
            &&& health.after_response(rtt, true, now_ns as int).counters == (Counters {
                answered: (was.answered + 1) as u64,
                ..was
            })
            &&& health.after_response(rtt, false, now_ns as int).counters == (Counters {
                empty: (was.empty + 1) as u64,
                ..was
            })
            &&& timed_out == (Counters {
                timeout: (was.timeout + 1) as u64,
                purgatory_entries: timed_out.purgatory_entries,
                ..was
            })
            &&& erred == (Counters {
                error: (was.error + 1) as u64,
                purgatory_entries: erred.purgatory_entries,
                ..was
            })
        }),
{
}

/// A round trip is taken in whole microseconds, rounded down, and as one where it is
/// shorter. One of 2^64 microseconds or more is left out.
pub proof fn law_round_trips_are_taken_in_microseconds(rtt: Duration)
    requires
        duration_nanos(rtt) < 1000 * 0x1_0000_0000_0000_0000,
    ensures
        rtt_sample(rtt) >= 1,
        duration_nanos(rtt) >= 1000 ==> 1000 * rtt_sample(rtt) <= duration_nanos(rtt) < 1000 * (
        rtt_sample(rtt) + 1),
        duration_nanos(rtt) < 1000 ==> rtt_sample(rtt) == 1,
{
}

/// A response gives one round-trip time. The mean becomes seven parts of what it was and
/// one part of the new time, to within a microsecond, or the new time where there was
/// none. The least time is the new one where that is less, where there was none, or where
/// the least is older than thirty seconds.
pub proof fn law_a_response_gives_a_round_trip_time(
    health: HealthView,
    rtt: Duration,
    had_answers: bool,
    now_ns: u64,
)
    requires
        health.wf(),
        duration_nanos(rtt) < 1000 * 0x1_0000_0000_0000_0000,
    ensures
        ({
            let was = health.rtt;
            let after = health.after_response(rtt, had_answers, now_ns as int).rtt;
            let sample = rtt_sample(rtt);
            let renewed = was.min_us == 0 || now_ns > was.window_ns + 30_000_000_000;
            &&& was.mean_us == 0 ==> after.mean_us == sample
            &&& was.mean_us > 0 ==> {
                &&& 8 * (after.mean_us - 1) <= 7 * was.mean_us + sample
                &&& 7 * was.mean_us + sample < 8 * (after.mean_us + 1)
                &&& after.mean_us >= 1
            }
            &&& renewed ==> after.min_us == sample && after.window_ns == now_ns
            &&& !renewed ==> {
                &&& after.window_ns == was.window_ns
                &&& after.min_us <= sample
                &&& after.min_us <= was.min_us
                &&& after.min_us == sample || after.min_us == was.min_us
            }
        }),
{
}

/// A resolver starts out ready: at any time it may be sent as many queries at once as are
/// configured, and one at least, without pacing; nothing is counted of it; and it is
/// benched as configured.
pub proof fn law_a_new_resolver_is_ready(resolver: Endpoint, config: BlastDNSConfig, now_ns: u64)
    ensures
        ({
            let health = healthy(resolver, config);
            &&& health.resolver == resolver
            &&& health.eligible(now_ns as int)
            &&& health.in_flight() == 0
            &&& config.max_inflight_per_resolver >= 1 ==> health.capacity
                == config.max_inflight_per_resolver
            &&& config.max_inflight_per_resolver == 0 ==> health.capacity == 1
            &&& health.limiter.next_ns == 0
            &&& health.limiter.interval_ns == 1
            &&& health.counters.attempted == 0 && health.counters.answered == 0
            &&& health.counters.empty == 0 && health.counters.timeout == 0
            &&& health.counters.error == 0 && health.counters.truncated == 0
            &&& health.counters.purgatory_entries == 0
            &&& health.consecutive_errors == 0
            &&& health.rtt.mean_us == 0 && health.rtt.min_us == 0
            &&& health.request_timeout == config.request_timeout
            &&& health.persistent_socket == config.persistent_socket
            &&& health.purgatory_threshold == config.purgatory_threshold
            &&& health.purgatory_sentence == config.purgatory_sentence
        }),
{
    law_a_rate_and_its_spacing_make_a_second(UNLIMITED_QPS);
}

/// A resolver may be selected where it is active and the end of its sentence has come,
/// and only there.
pub proof fn law_a_resolver_is_eligible_unless_out_or_benched(health: HealthView, now_ns: u64)
    ensures
        health.eligible(now_ns as int) <==> health.active && now_ns >= health.benched_until_ns,
        health.benched(now_ns as int) <==> now_ns < health.benched_until_ns,
{
}

/// A snapshot accounts for every dispatched query once all have settled, and follows what
/// is recorded: of two snapshots, one before an event and one after it, the later has one
/// more of what the event is counted as. The pacing rate is told where there is any.
pub proof fn law_snapshots_follow_what_is_recorded(
    before: ResolverStats,
    after: ResolverStats,
    health: HealthView,
    rtt: Duration,
    now_ns: u64,
)
    requires
        health.wf(),
        is_snapshot(before, health),
        health.counters.attempted < u64::MAX,
        health.counters.answered < u64::MAX,
        health.counters.empty < u64::MAX,
        health.counters.timeout < u64::MAX,
        health.counters.error < u64::MAX,
        health.counters.truncated < u64::MAX,
    ensures
        before.resolver@ == health.resolver.text(),
        health.counters.unsettled() == 0 ==> before.attempted == before.answered + before.empty
            + before.timeout + before.error,
        is_snapshot(after, health.after_dispatch()) ==> after.attempted == before.attempted + 1
            && after.answered == before.answered && after.empty == before.empty && after.timeout
            == before.timeout && after.error == before.error && after.truncated
            == before.truncated,
        is_snapshot(after, health.after_truncation()) ==> after.truncated == before.truncated + 1
            && after.attempted == before.attempted && after.answered == before.answered
            && after.empty == before.empty && after.timeout == before.timeout && after.error
            == before.error,
        is_snapshot(after, health.after_response(rtt, true, now_ns as int)) ==> after.answered
            == before.answered + 1 && after.attempted == before.attempted && after.empty
            == before.empty && after.timeout == before.timeout && after.error == before.error
            && after.truncated == before.truncated,
        is_snapshot(after, health.after_response(rtt, false, now_ns as int)) ==> after.empty
            == before.empty + 1 && after.attempted == before.attempted && after.answered
            == before.answered && after.timeout == before.timeout && after.error == before.error
            && after.truncated == before.truncated,
        is_snapshot(after, health.after_error(true, now_ns as int)) ==> after.timeout
            == before.timeout + 1 && after.attempted == before.attempted && after.answered
            == before.answered && after.empty == before.empty && after.error == before.error
            && after.truncated == before.truncated,
        is_snapshot(after, health.after_error(false, now_ns as int)) ==> after.error
            == before.error + 1 && after.attempted == before.attempted && after.answered
            == before.answered && after.empty == before.empty && after.timeout == before.timeout
            && after.truncated == before.truncated,
        before.purgatory_entries == health.counters.purgatory_entries,
        before.rtt_mean_us == health.rtt.mean_us,
        before.rtt_min_us == health.rtt.min_us,
        before.rate_qps is None <==> health.limiter.interval_ns == 1,
        before.rate_qps matches Some(rate) ==> rate * health.limiter.interval_ns
            <= 1_000_000_000_000_000_000 < (rate + 1) * health.limiter.interval_ns,
{
    let i = health.limiter.interval_ns;
    let u: int = 1_000_000_000_000_000_000;
    law_the_rate_of_a_spacing_fits_a_second(i);
    assert(i >= 2 ==> 0 <= u / i < u) by (nonlinear_arith)
        requires
            i >= 1,
            u == 1_000_000_000_000_000_000,
    ;
    assert(i == 1 ==> u / i == u) by (nonlinear_arith);
}

/// A count goes up by one, and starts over after the greatest number.
pub proof fn law_a_count_goes_up_by_one(count: u64)
    ensures
        count < u64::MAX ==> bumped(count) == count + 1,
        count == u64::MAX ==> bumped(count) == 0,
{
}

/// Taking or giving back a permit changes the free permits alone, and a change of rate the
/// spacing alone.
pub proof fn law_permits_and_rates_leave_the_rest_alone(
    health: HealthView,
    free: int,
    rate: NanoQps,
)
    ensures
        health.with_free(free).free == free,
        (HealthView { free: health.free, ..health.with_free(free) }) == health,
        health.with_rate(rate).limiter.interval_ns == interval_for(rate),
        health.with_rate(rate).limiter.next_ns == health.limiter.next_ns,
        (HealthView { limiter: health.limiter, ..health.with_rate(rate) }) == health,
{
}

} // verus!

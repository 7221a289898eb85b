//! Adaptive dispatch control.
//!
//! Rather than being told how fast to go, the controller finds out. It watches
//! loss per resolver, and when a resolver starts dropping queries it records the
//! rate at which that happened as an "edge" and settles below it. A configured
//! rate limit, if any, is a separate hard cap applied on top: adaptation happens
//! either way and can only ever lower the effective rate.
//!
//! Loss on one resolver only throttles that resolver. Cutting the global rate
//! requires queries that ultimately failed, so a large public list full of dead
//! entries cannot drag the rate down.
//!
//! The two signals need different amounts of evidence. A per-resolver loss ratio
//! needs enough queries against that one resolver, and the per-resolver in-flight
//! cap means a few queries per tick at most, so those samples accumulate across
//! ticks until the ratio means something. The aggregate is well sampled every
//! tick.

use std::time::Duration;

use vstd::prelude::*;

use crate::client::Outcomes;
use crate::health::{Counters, HealthView, ResolverHealth};
use crate::limiter::{LimiterView, RateLimiter};
use crate::pool::{lemma_with_resolver_wf, PoolView, ResolverPool};
use crate::rate::{
    grow_toward, growth, interval_for, is_lossy, law_a_rate_and_its_spacing_make_a_second,
    law_an_observed_rate_accounts_for_the_queries, law_retreat_is_to_85_hundredths,
    law_spacing_is_antitone, lossy, max, min, nearest, observed_rate, rate_observed, rate_of,
    retreat, retreat_from, NanoQps, MIN_RATE_QPS, ONE_QPS, UNLIMITED_QPS,
};
use crate::span::duration_nanos;

verus! {

/// Queries against one resolver before its own loss ratio is trusted. Accumulated
/// across ticks: a resolver held to a couple of queries in flight cannot produce
/// this many within one tick, so demanding it per tick never judges anything.
pub const MIN_SAMPLES: u64 = 20;

/// Queries finished in a tick before the global failure rate is trusted.
pub const MIN_AGGREGATE_SAMPLES: u64 = 100;

/// How long a sampling window may stay open. Past this the samples span too many
/// conditions to be one measurement, and a resolver drawing this little traffic is
/// not one we could be overloading anyway.
pub const WINDOW_TTL_NS: u128 = 10_000_000_000;

/// How often limits are recomputed.
pub const TICK_MS: u64 = 500;

/// How long a discovered edge is honored. Without expiry, one transient blip would
/// cap the rest of a long scan.
pub const EDGE_TTL_NS: u64 = 30_000_000_000;

/// The shortest time that a tick is taken to have lasted.
pub const MIN_TICK_NS: u128 = 1000;

/// Queries, and how many of them were lost.
#[derive(Clone, Copy, Debug, PartialEq, Eq, Structural)]
pub struct Observation {
    pub attempted: u64,
    pub lost: u64,
}

/// Sampling state for one resolver.
///
/// `last` gives the per-tick delta, which is what the global rate is measured
/// against. `window` accumulates those deltas until there are enough to trust a
/// loss ratio for this one resolver, which usually takes several ticks.
///
/// The window's span is accumulated from the elapsed time each tick reports rather
/// than read off the clock, so the caller's notion of time is the only one in play.
#[derive(Clone, Copy, Debug, PartialEq, Eq, Structural)]
pub struct Sampler {
    pub last: Observation,
    pub window: Observation,
    pub window_ns: u128,
}

/// A rate at which loss was observed, and when it was seen.
#[derive(Clone, Copy, Debug, PartialEq, Eq, Structural)]
pub struct Edge {
    pub qps: NanoQps,
    pub seen_at_ns: u64,
}

/// The sum of two counts, or the greatest count where that is less.
pub open spec fn capped_sum(a: int, b: int) -> u64 {
    min(a + b, u64::MAX as int) as u64
}

/// What was counted since `before`, or nothing where the count went back.
pub open spec fn since(now: u64, before: u64) -> u64 {
    max(now - before, 0) as u64
}

impl Observation {
    /// Nothing observed.
    pub open spec fn none() -> Observation {
        Observation { attempted: 0, lost: 0 }
    }
}

/// What a resolver's counters say of it.
pub open spec fn observation_of(counters: Counters) -> Observation {
    Observation {
        attempted: counters.attempted,
        lost: capped_sum(counters.timeout as int, counters.error as int),
    }
}

impl Sampler {
    /// Nothing sampled.
    pub open spec fn fresh() -> Sampler {
        Sampler { last: Observation::none(), window: Observation::none(), window_ns: 0 }
    }

    /// The sampler once `current` was observed after another `tick_ns`.
    pub open spec fn observed(self, current: Observation, tick_ns: nat) -> Sampler {
        Sampler {
            last: current,
            window: Observation {
                attempted: capped_sum(
                    self.window.attempted as int,
                    since(current.attempted, self.last.attempted) as int,
                ),
                lost: capped_sum(
                    self.window.lost as int,
                    since(current.lost, self.last.lost) as int,
                ),
            },
            window_ns: min(self.window_ns + tick_ns, u128::MAX as int) as u128,
        }
    }

    /// The sampler with a new window.
    pub open spec fn reopened(self) -> Sampler {
        Sampler { window: Observation::none(), window_ns: 0, ..self }
    }

    /// Open a new window.
    fn reopen(&mut self)
        ensures
            *final(self) == old(self).reopened(),
    {
        self.window = Observation { attempted: 0, lost: 0 };
        self.window_ns = 0;
    }

    /// Take `current` as what was observed after another `tick_ns`. Returns how
    /// many queries were attempted meanwhile.
    fn observe(&mut self, current: Observation, tick_ns: u128) -> (attempted: u64)
        ensures
            *final(self) == old(self).observed(current, tick_ns as nat),
            attempted == since(current.attempted, old(self).last.attempted),
    {
        let attempted: u64 = current.attempted.saturating_sub(self.last.attempted);
        let lost: u64 = current.lost.saturating_sub(self.last.lost);
        self.last = current;
        self.window.attempted = self.window.attempted.saturating_add(attempted);
        self.window.lost = self.window.lost.saturating_add(lost);
        self.window_ns = self.window_ns.saturating_add(tick_ns);
        attempted
    }
}

/// An edge and the pacing under it, eased back up at `now_ns`: a stale edge is
/// expired outright, otherwise the rate climbs toward the retreat target.
pub open spec fn relaxed(edge: Option<Edge>, limiter: LimiterView, now_ns: u64) -> (
    Option<Edge>,
    LimiterView,
) {
    match edge {
        None => (None, limiter),
        Some(known) => if now_ns - known.seen_at_ns >= EDGE_TTL_NS {
            (None, limiter.with_rate(UNLIMITED_QPS))
        } else {
            let target = retreat(known.qps as int);
            let current = rate_of(limiter.interval_ns);
            if current < target {
                (edge, limiter.with_rate(min(growth(current), target) as NanoQps))
            } else {
                (edge, limiter)
            }
        },
    }
}

/// What the controller keeps of one resolver: its samples, its edge and its
/// pacing.
pub struct Track {
    pub sampler: Sampler,
    pub edge: Option<Edge>,
    pub limiter: LimiterView,
}

impl Track {
    /// The same samples with the pacing eased back up at `now_ns`.
    pub open spec fn eased(self, now_ns: u64) -> Track {
        let (edge, limiter) = relaxed(self.edge, self.limiter, now_ns);
        Track { edge, limiter, ..self }
    }

    /// The pacing moved below the rate at which the window's loss appeared.
    pub open spec fn retreated(self, now_ns: u64) -> Track {
        let qps = observed_rate(
            self.sampler.window.attempted as int,
            self.sampler.window_ns as int,
        );
        Track {
            sampler: self.sampler.reopened(),
            edge: Some(Edge { qps: qps as NanoQps, seen_at_ns: now_ns }),
            limiter: self.limiter.with_rate(retreat(qps) as NanoQps),
        }
    }

    /// What is kept of a resolver once a window with this tick's samples in it has
    /// been looked at.
    ///
    /// With too few samples no judgement is passed: a stale window is dropped, and
    /// any existing edge is let expire so that an idle resolver is not throttled
    /// forever. With enough, loss moves the pacing below the rate that the window
    /// sustained.
    pub open spec fn judged(self, now_ns: u64) -> Track {
        if self.sampler.window.attempted < MIN_SAMPLES {
            Track {
                sampler: if self.sampler.window_ns >= WINDOW_TTL_NS {
                    self.sampler.reopened()
                } else {
                    self.sampler
                },
                ..self
            }.eased(now_ns)
        } else if is_lossy(
            self.sampler.window.lost as int,
            self.sampler.window.attempted as int,
        ) {
            self.retreated(now_ns)
        } else {
            Track { sampler: self.sampler.reopened(), ..self }.eased(now_ns)
        }
    }

    /// What is kept of a resolver after a tick of `tick_ns` at the end of which its
    /// counters stood at `current`.
    pub open spec fn ticked(self, current: Observation, tick_ns: nat, now_ns: u64) -> Track {
        Track { sampler: self.sampler.observed(current, tick_ns), ..self }.judged(now_ns)
    }
}

/// Ease a resolver's pacing back up.
fn relax(edge: &mut Option<Edge>, health: &mut ResolverHealth, now_ns: u64)
    requires
        old(health)@.wf(),
    ensures
        final(health)@.wf(),
        *final(edge) == relaxed(*old(edge), old(health)@.limiter, now_ns).0,
        final(health)@ == (HealthView {
            limiter: relaxed(*old(edge), old(health)@.limiter, now_ns).1,
            ..old(health)@
        }),
{
    let known: Edge = match *edge {
        None => {
            return ;
        },
        Some(known) => known,
    };
    if now_ns.saturating_sub(known.seen_at_ns) >= EDGE_TTL_NS {
        *edge = None;
        health.set_rate(UNLIMITED_QPS);
        return ;
    }
    let target: NanoQps = retreat_from(known.qps);
    let current: NanoQps = health.rate();
    if current < target {
        health.set_rate(grow_toward(current, target));
    }
}

/// Pass judgement on a resolver whose sampler has taken this tick's samples.
fn judge(sampler: &mut Sampler, edge: &mut Option<Edge>, health: &mut ResolverHealth, now_ns: u64)
    requires
        old(health)@.wf(),
    ensures
        final(health)@.wf(),
        ({
            let track = Track {
                sampler: *old(sampler),
                edge: *old(edge),
                limiter: old(health)@.limiter,
            }.judged(now_ns);
            &&& *final(sampler) == track.sampler
            &&& *final(edge) == track.edge
            &&& final(health)@ == (HealthView { limiter: track.limiter, ..old(health)@ })
        }),
{
    let window: Observation = sampler.window;
    let window_ns: u128 = sampler.window_ns;
    if window.attempted < MIN_SAMPLES {
        if window_ns >= WINDOW_TTL_NS {
            sampler.reopen();
        }
        relax(edge, health, now_ns);
        return ;
    }
    sampler.reopen();
    if lossy(window.lost, window.attempted) {
        let qps: NanoQps = rate_observed(window.attempted, window_ns);
        *edge = Some(Edge { qps, seen_at_ns: now_ns });
        health.set_rate(retreat_from(qps));
    } else {
        relax(edge, health, now_ns);
    }
}

/// Watches per-resolver loss and adjusts pacing to stay below the loss edge.
pub struct AdaptiveController {
    /// Configured hard cap. [`UNLIMITED_QPS`] when none was set.
    global_ceiling: NanoQps,
    per_resolver: Vec<Sampler>,
    edges: Vec<Option<Edge>>,
    /// Queries finished and lost, as of the previous tick.
    previous_outcomes: Observation,
    /// Current global ceiling, or `None` while unthrottled. Retreat is relative to
    /// this rather than to observed throughput: observed can sit far below the
    /// limit simply because the workload is small, and retreating from it would
    /// clamp the limit for no reason and then compound on every tick.
    global_limit: Option<NanoQps>,
}

/// The controller's hold on the global rate.
#[derive(Clone, Copy, Debug, PartialEq, Eq, Structural)]
pub struct GlobalPace {
    pub ceiling: NanoQps,
    /// The limit below the ceiling, if there is one.
    pub limit: Option<NanoQps>,
}

impl GlobalPace {
    /// A limit lies below the ceiling, and below [`MIN_RATE_QPS`] only where the
    /// ceiling does.
    pub open spec fn wf(self) -> bool {
        &&& self.ceiling > 0
        &&& self.limit matches Some(limit) ==> min(MIN_RATE_QPS as int, self.ceiling as int) <= limit
            <= self.ceiling
    }

    /// The rate that the global limiter is to be set to, if it is to be set, and
    /// the hold on it after a tick in which `completed` queries finished, `failed`
    /// of them without an answer, while attempts were made at the rate `observed`.
    ///
    /// Unrecoverable loss lowers the limit. Without it the limit eases back up, and
    /// is dropped once the ceiling is reached so that a healthy path is not paced
    /// at all.
    pub open spec fn adjusted(self, completed: u64, failed: u64, observed: int) -> (
        GlobalPace,
        Option<NanoQps>,
    ) {
        if is_congested(completed, failed) {
            let basis = match self.limit {
                Some(limit) => limit as int,
                None => observed,
            };
            let target = min(retreat(basis), self.ceiling as int) as NanoQps;
            (GlobalPace { limit: Some(target), ..self }, Some(target))
        } else {
            match self.limit {
                None => (self, None),
                Some(limit) => if growth(limit as int) >= self.ceiling {
                    (GlobalPace { limit: None, ..self }, Some(self.ceiling))
                } else {
                    let grown = growth(limit as int) as NanoQps;
                    (GlobalPace { limit: Some(grown), ..self }, Some(grown))
                },
            }
        }
    }
}

/// Whether enough queries finished to judge by, and more than two in a hundred of
/// them failed outright.
pub open spec fn is_congested(completed: u64, failed: u64) -> bool {
    completed >= MIN_AGGREGATE_SAMPLES && is_lossy(failed as int, completed as int)
}

/// `limiter`, set to `rate` where there is one.
pub open spec fn repaced(limiter: LimiterView, rate: Option<NanoQps>) -> LimiterView {
    match rate {
        Some(rate) => limiter.with_rate(rate),
        None => limiter,
    }
}

/// What an [`AdaptiveController`] holds.
#[verifier::ext_equal]
pub struct ControllerView {
    pub pace: GlobalPace,
    pub samplers: Seq<Sampler>,
    pub edges: Seq<Option<Edge>>,
    pub previous: Observation,
}

impl View for AdaptiveController {
    type V = ControllerView;

    closed spec fn view(&self) -> ControllerView {
        ControllerView {
            pace: GlobalPace { ceiling: self.global_ceiling, limit: self.global_limit },
            samplers: self.per_resolver@,
            edges: self.edges@,
            previous: self.previous_outcomes,
        }
    }
}

impl ControllerView {
    /// Every resolver has a sampler and a place for an edge, and the hold on the
    /// global rate is sound.
    pub open spec fn wf(self) -> bool {
        &&& self.samplers.len() == self.edges.len()
        &&& self.pace.wf()
    }

    /// What is kept of the resolver at `i` of `pool`.
    pub open spec fn track(self, pool: PoolView, i: int) -> Track {
        Track {
            sampler: self.samplers[i],
            edge: self.edges[i],
            limiter: pool.resolvers[i].limiter,
        }
    }

    /// Whether, over a tick of `tick_ns` from this state and `pool`, the resolver at
    /// `i` alone came to what `next` and `next_pool` hold of it: its own counters
    /// decide on its samples, its edge and its pacing, and nothing else of it
    /// changes.
    pub open spec fn resolver_ticked(
        self,
        pool: PoolView,
        next: ControllerView,
        next_pool: PoolView,
        i: int,
        tick_ns: nat,
        now_ns: u64,
    ) -> bool {
        let track = self.track(pool, i).ticked(
            observation_of(pool.resolvers[i].counters),
            tick_ns,
            now_ns,
        );
        &&& next.samplers[i] == track.sampler
        &&& next.edges[i] == track.edge
        &&& next_pool.resolvers[i] == (HealthView { limiter: track.limiter, ..pool.resolvers[i] })
    }

    /// The queries attempted since the previous tick at the first `n` resolvers.
    pub open spec fn attempted_since(self, pool: PoolView, n: int) -> int
        decreases n,
    {
        if n <= 0 {
            0
        } else {
            self.attempted_since(pool, n - 1) + since(
                pool.resolvers[n - 1].counters.attempted,
                self.samplers[n - 1].last.attempted,
            )
        }
    }
}

/// How long a tick is taken to have lasted.
pub open spec fn tick_nanos(elapsed: Duration) -> nat {
    max(duration_nanos(elapsed) as int, MIN_TICK_NS as int) as nat
}

impl AdaptiveController {
    /// A controller that has seen nothing and limits nothing.
    pub fn new(resolver_count: usize, global_ceiling: NanoQps) -> (controller: AdaptiveController)
        requires
            global_ceiling > 0,
        ensures
            controller@.wf(),
            controller@ == (ControllerView {
                pace: GlobalPace { ceiling: global_ceiling, limit: None },
                samplers: Seq::new(resolver_count as nat, |i: int| Sampler::fresh()),
                edges: Seq::new(resolver_count as nat, |i: int| None),
                previous: Observation::none(),
            }),
    {
        let mut per_resolver: Vec<Sampler> = Vec::new();
        let mut edges: Vec<Option<Edge>> = Vec::new();
        let mut i: usize = 0;
        while i < resolver_count
            invariant
                i <= resolver_count,
                per_resolver@ == Seq::new(i as nat, |i: int| Sampler::fresh()),
                edges@ == Seq::new(i as nat, |i: int| None::<Edge>),
            decreases resolver_count - i,
        {
            per_resolver.push(
                Sampler {
                    last: Observation { attempted: 0, lost: 0 },
                    window: Observation { attempted: 0, lost: 0 },
                    window_ns: 0,
                },
            );
            edges.push(None);
            i += 1;
        }
        AdaptiveController {
            global_ceiling,
            per_resolver,
            edges,
            previous_outcomes: Observation { attempted: 0, lost: 0 },
            global_limit: None,
        }
    }

    /// Adjust the global rate from queries that ultimately failed.
    ///
    /// Deliberately not the per-attempt loss used for individual resolvers. A
    /// public pool refuses a few percent of attempts as a matter of course and a
    /// retry elsewhere answers them; counting those makes a healthy pool look
    /// permanently congested. A query that no amount of retrying could answer is
    /// real evidence about the path.
    pub fn adjust_global(
        &mut self,
        global: &mut RateLimiter,
        outcomes: &Outcomes,
        tick_ns: u128,
        attempted: u64,
    )
        requires
            old(self)@.wf(),
            old(global)@.wf(),
        ensures
            final(self)@.wf(),
            final(global)@.wf(),
            final(self)@ == (ControllerView {
                pace: old(self)@.pace.adjusted(
                    since(outcomes.completed, old(self)@.previous.attempted),
                    since(outcomes.failed, old(self)@.previous.lost),
                    observed_rate(attempted as int, tick_ns as int),
                ).0,
                previous: Observation { attempted: outcomes.completed, lost: outcomes.failed },
                ..old(self)@
            }),
            final(global)@ == repaced(
                old(global)@,
                old(self)@.pace.adjusted(
                    since(outcomes.completed, old(self)@.previous.attempted),
                    since(outcomes.failed, old(self)@.previous.lost),
                    observed_rate(attempted as int, tick_ns as int),
                ).1,
            ),
    {
        let completed: u64 = outcomes.completed.saturating_sub(self.previous_outcomes.attempted);
        let failed: u64 = outcomes.failed.saturating_sub(self.previous_outcomes.lost);
        self.previous_outcomes = Observation {
            attempted: outcomes.completed,
            lost: outcomes.failed,
        };
        if completed >= MIN_AGGREGATE_SAMPLES && lossy(failed, completed) {
            let basis: NanoQps = match self.global_limit {
                Some(limit) => limit,
                None => rate_observed(attempted, tick_ns),
            };
            let retreated: NanoQps = retreat_from(basis);
            let target: NanoQps = if retreated <= self.global_ceiling {
                retreated
            } else {
                self.global_ceiling
            };
            self.global_limit = Some(target);
            global.set_rate(target);
            return ;
        }
        if let Some(limit) = self.global_limit {
            let grown: NanoQps = grow_toward(limit, self.global_ceiling);
            self.global_limit = if grown < self.global_ceiling {
                Some(grown)
            } else {
                None
            };
            global.set_rate(grown);
        }
        assert(self@.samplers == old(self)@.samplers);
    }

    /// Recompute limits from the loss observed since the previous tick, `elapsed`
    /// ago.
    pub fn tick(
        &mut self,
        pool: &mut ResolverPool,
        global: &mut RateLimiter,
        outcomes: &Outcomes,
        elapsed: Duration,
        now_ns: u64,
    )
        requires
            old(self)@.wf(),
            old(pool)@.wf(),
            old(global)@.wf(),
            old(pool)@.resolvers.len() <= old(self)@.samplers.len(),
        ensures
            final(self)@.wf(),
            final(pool)@.wf(),
            final(global)@.wf(),
            final(self)@.samplers.len() == old(self)@.samplers.len(),
            final(pool)@.resolvers.len() == old(pool)@.resolvers.len(),
            final(pool)@ == (PoolView { resolvers: final(pool)@.resolvers, ..old(pool)@ }),
            forall|i: int|
                0 <= i < old(pool)@.resolvers.len() ==> #[trigger] old(self)@.resolver_ticked(
                    old(pool)@,
                    final(self)@,
                    final(pool)@,
                    i,
                    tick_nanos(elapsed),
                    now_ns,
                ),
            forall|i: int|
                #![trigger final(self)@.samplers[i]]
                #![trigger final(self)@.edges[i]]
                old(pool)@.resolvers.len() <= i < old(self)@.samplers.len() ==> {
                    &&& final(self)@.samplers[i] == old(self)@.samplers[i]
                    &&& final(self)@.edges[i] == old(self)@.edges[i]
                },
            ({
                let adjusted = old(self)@.pace.adjusted(
                    since(outcomes.completed, old(self)@.previous.attempted),
                    since(outcomes.failed, old(self)@.previous.lost),
                    observed_rate(
                        capped_sum(
                            0,
                            old(self)@.attempted_since(
                                old(pool)@,
                                old(pool)@.resolvers.len() as int,
                            ),
                        ) as int,
                        tick_nanos(elapsed) as int,
                    ),
                );
                &&& final(self)@.pace == adjusted.0
                &&& final(self)@.previous == (Observation {
                    attempted: outcomes.completed,
                    lost: outcomes.failed,
                })
                &&& final(global)@ == repaced(old(global)@, adjusted.1)
            }),
    {
        let nanos: u128 = elapsed.as_nanos();
        let tick_ns: u128 = if nanos < MIN_TICK_NS {
            MIN_TICK_NS
        } else {
            nanos
        };
        let ghost was = self@;
        let ghost pool_was = pool@;
        let mut attempted_total: u64 = 0;
        let n: usize = pool.len();
        let mut i: usize = 0;
        while i < n
            invariant
                i <= n,
                n == pool_was.resolvers.len(),
                was == old(self)@,
                pool_was == old(pool)@,
                *global == *old(global),
                tick_ns == tick_nanos(elapsed),
                tick_ns > 0,
                was.wf(),
                pool_was.wf(),
                n <= was.samplers.len(),
                self@.samplers.len() == was.samplers.len(),
                self@.edges.len() == was.edges.len(),
                self@.pace == was.pace,
                self@.previous == was.previous,
                pool@.wf(),
                pool@.resolvers.len() == n,
                pool@ == (PoolView { resolvers: pool@.resolvers, ..pool_was }),
                attempted_total == capped_sum(0, was.attempted_since(pool_was, i as int)),
                was.attempted_since(pool_was, i as int) >= 0,
                forall|j: int|
                    0 <= j < i ==> #[trigger] was.resolver_ticked(
                        pool_was,
                        self@,
                        pool@,
                        j,
                        tick_ns as nat,
                        now_ns,
                    ),
                forall|j: int|
                    i <= j < n ==> #[trigger] pool@.resolvers[j] == pool_was.resolvers[j],
                forall|j: int|
                    #![trigger self@.samplers[j]]
                    #![trigger self@.edges[j]]
                    i <= j < was.samplers.len() ==> self@.samplers[j] == was.samplers[j]
                        && self@.edges[j] == was.edges[j],
            decreases n - i,
        {
            let ghost pool_now = pool@;
            let ghost self_now = self@;
            assert(pool_now.resolvers[i as int].wf());
            let counters: Counters = pool.resolver(i).counters();
            let current: Observation = Observation {
                attempted: counters.attempted,
                lost: counters.timeout.saturating_add(counters.error),
            };
            let attempted: u64 = self.per_resolver[i].observe(current, tick_ns);
            attempted_total = attempted_total.saturating_add(attempted);
            let health = pool.resolver_mut(i);
            judge(&mut self.per_resolver[i], &mut self.edges[i], health, now_ns);
            proof {
                let track = was.track(pool_was, i as int).ticked(
                    observation_of(pool_was.resolvers[i as int].counters),
                    tick_ns as nat,
                    now_ns,
                );
                let health = HealthView { limiter: track.limiter, ..pool_was.resolvers[i as int] };
                assert(pool@ =~= pool_now.with_resolver(i as int, health));
                assert(self@.samplers =~= self_now.samplers.update(i as int, track.sampler));
                assert(self@.edges =~= self_now.edges.update(i as int, track.edge));
                lemma_with_resolver_wf(pool_now, i as int, pool@.resolvers[i as int]);
                assert forall|j: int| 0 <= j <= i implies #[trigger] was.resolver_ticked(
                    pool_was,
                    self@,
                    pool@,
                    j,
                    tick_ns as nat,
                    now_ns,
                ) by {
                    if j < i {
                        assert(was.resolver_ticked(
                            pool_was,
                            self_now,
                            pool_now,
                            j,
                            tick_ns as nat,
                            now_ns,
                        ));
                    }
                }
            }
            i += 1;
        }
        let ghost self_now = self@;
        self.adjust_global(global, outcomes, tick_ns, attempted_total);
        assert forall|j: int| 0 <= j < n implies #[trigger] was.resolver_ticked(
            pool_was,
            self@,
            pool@,
            j,
            tick_ns as nat,
            now_ns,
        ) by {
            assert(was.resolver_ticked(pool_was, self_now, pool@, j, tick_ns as nat, now_ns));
        }
    }
}

impl GlobalPace {
    /// Whether `limiter` paces as this hold says: at the limit, or at the ceiling
    /// where there is none.
    pub open spec fn governs(self, limiter: LimiterView) -> bool {
        limiter.interval_ns == interval_for(
            match self.limit {
                Some(limit) => limit,
                None => self.ceiling,
            },
        )
    }

    /// The hold on the rate after `n` ticks in a row without unrecoverable loss.
    pub open spec fn recovered(self, n: nat) -> GlobalPace
        decreases n,
    {
        if n == 0 {
            self
        } else {
            self.recovered((n - 1) as nat).adjusted(0, 0, 0).0
        }
    }

    /// Whether there is no limit after `n` or more such ticks.
    pub open spec fn unpaced_from(self, n: nat) -> bool {
        forall|m: nat| m >= n ==> (#[trigger] self.recovered(m)).limit is None
    }
}

/// A configured ceiling is never exceeded: a global limiter that paces as the
/// controller says does so after every tick, whatever was lost, and never leaves
/// less between two queries than the ceiling asks for.
pub proof fn law_the_ceiling_is_never_exceeded(
    pace: GlobalPace,
    limiter: LimiterView,
    completed: u64,
    failed: u64,
    observed: NanoQps,
)
    requires
        pace.wf(),
        pace.governs(limiter),
    ensures
        ({
            let (next, rate) = pace.adjusted(completed, failed, observed as int);
            &&& next.wf()
            &&& next.ceiling == pace.ceiling
            &&& next.governs(repaced(limiter, rate))
            &&& repaced(limiter, rate).interval_ns >= interval_for(pace.ceiling)
        }),
{
    let (next, rate) = pace.adjusted(completed, failed, observed as int);
    if let Some(limit) = next.limit {
        law_spacing_is_antitone(limit, pace.ceiling);
    }
}

/// What a tick tells of the path: how many queries finished, how many of them failed,
/// and the rate at which attempts were made.
pub struct PathReport {
    pub completed: u64,
    pub failed: u64,
    pub observed: NanoQps,
}

impl GlobalPace {
    /// The hold on the rate after the ticks that `reports` tell of.
    pub open spec fn after_reports(self, reports: Seq<PathReport>) -> GlobalPace
        decreases reports.len(),
    {
        if reports.len() == 0 {
            self
        } else {
            let last = reports.last();
            self.after_reports(reports.drop_last()).adjusted(
                last.completed,
                last.failed,
                last.observed as int,
            ).0
        }
    }

    /// The rate that the global limiter is set to at the tick that the last of `reports`
    /// tells of, if it is set.
    pub open spec fn rate_set(self, reports: Seq<PathReport>) -> Option<NanoQps> {
        let last = reports.last();
        self.after_reports(reports.drop_last()).adjusted(
            last.completed,
            last.failed,
            last.observed as int,
        ).1
    }
}

/// Whatever the path goes through, every rate that the global limiter is ever set to is
/// at most the ceiling, and at least one query per second or the ceiling where that is
/// less. A tick without congestion sets the limit that stands a quarter higher, capped
/// at the ceiling, where it is dropped; with no limit standing it sets nothing.
pub proof fn law_every_global_rate_is_within_bounds(pace: GlobalPace, reports: Seq<PathReport>)
    requires
        pace.wf(),
        reports.len() > 0,
    ensures
        ({
            let before = pace.after_reports(reports.drop_last());
            let after = pace.after_reports(reports);
            let last = reports.last();
            &&& before.wf()
            &&& after.wf()
            &&& after.ceiling == pace.ceiling
            &&& pace.rate_set(reports) matches Some(rate) ==> min(
                MIN_RATE_QPS as int,
                pace.ceiling as int,
            ) <= rate <= pace.ceiling
            &&& !is_congested(last.completed, last.failed) ==> match before.limit {
                Some(limit) => {
                    let grown = min(growth(limit as int), pace.ceiling as int) as NanoQps;
                    &&& pace.rate_set(reports) == Some(grown)
                    &&& after.limit == (if grown < pace.ceiling {
                        Some(grown)
                    } else {
                        None
                    })
                },
                None => pace.rate_set(reports) is None && after == before,
            }
        }),
    decreases reports.len(),
{
    let front = reports.drop_last();
    if front.len() > 0 {
        law_every_global_rate_is_within_bounds(pace, front);
    }
}

/// Only queries that no retry could answer lower the global rate: without enough
/// of them a tick never lengthens the spacing, and an unlimited path stays at its
/// ceiling.
pub proof fn law_only_unrecoverable_loss_lowers_the_global_rate(
    pace: GlobalPace,
    limiter: LimiterView,
    completed: u64,
    failed: u64,
    observed: NanoQps,
)
    requires
        pace.wf(),
        pace.governs(limiter),
        !is_congested(completed, failed),
    ensures
        ({
            let (next, rate) = pace.adjusted(completed, failed, observed as int);
            &&& repaced(limiter, rate).interval_ns <= limiter.interval_ns
            &&& pace.limit is None ==> next == pace && repaced(limiter, rate) == limiter
        }),
{
    if let Some(limit) = pace.limit {
        if growth(limit as int) >= pace.ceiling {
            law_spacing_is_antitone(limit, pace.ceiling);
        } else {
            law_spacing_is_antitone(limit, growth(limit as int) as NanoQps);
        }
    }
}

/// Failures that retries recovered from are not congestion, however many attempts
/// they took.
pub proof fn law_recovered_failures_are_not_congestion(completed: u64)
    ensures
        !is_congested(completed, 0),
{
}

/// Queries failing outright lower the rate: with a standing limit above the floor
/// the next limit is lower, and without one the limit is below the rate at which
/// the loss appeared, or at the floor.
pub proof fn law_congestion_lowers_the_limit(
    pace: GlobalPace,
    completed: u64,
    failed: u64,
    observed: NanoQps,
)
    requires
        pace.wf(),
        is_congested(completed, failed),
    ensures
        ({
            let next = pace.adjusted(completed, failed, observed as int).0.limit;
            &&& next is Some
            &&& match pace.limit {
                Some(limit) => limit > MIN_RATE_QPS ==> next->0 < limit,
                None => observed > MIN_RATE_QPS ==> next->0 < observed,
            }
        }),
{
}

/// A step of recovery ends the limit or raises it by about a quarter.
proof fn lemma_recovery_step(pace: GlobalPace, n: nat)
    requires
        pace.wf(),
    ensures
        pace.recovered(n).wf(),
        pace.recovered(n).ceiling == pace.ceiling,
        pace.recovered(n + 1).limit matches Some(next) ==> {
            &&& pace.recovered(n).limit matches Some(limit)
            &&& next == growth(limit as int)
            &&& next > limit
        },
    decreases n,
{
    if n > 0 {
        lemma_recovery_step(pace, (n - 1) as nat);
        assert(pace.recovered(n) == pace.recovered((n - 1) as nat).adjusted(0, 0, 0).0);
    }
    assert(pace.recovered(n + 1) == pace.recovered(n).adjusted(0, 0, 0).0);
}

/// Once recovered, a path stays so.
proof fn lemma_recovery_lasts(pace: GlobalPace, n: nat, m: nat)
    requires
        pace.wf(),
        n <= m,
        pace.recovered(n).limit is None,
    ensures
        pace.recovered(m).limit is None,
    decreases m,
{
    if n < m {
        lemma_recovery_lasts(pace, n, (m - 1) as nat);
        lemma_recovery_step(pace, (m - 1) as nat);
    }
}

/// `n` steps leave no limit or one higher by at least `n`.
proof fn lemma_recovery_climbs(pace: GlobalPace, n: nat)
    requires
        pace.wf(),
    ensures
        pace.recovered(n).limit matches Some(limit) ==> {
            &&& pace.limit matches Some(first)
            &&& first + n <= limit <= pace.ceiling
        },
    decreases n,
{
    if n > 0 {
        lemma_recovery_climbs(pace, (n - 1) as nat);
        lemma_recovery_step(pace, (n - 1) as nat);
    }
    lemma_recovery_step(pace, n);
}

/// One bad patch does not hobble the rest of a scan: whatever the limit, enough
/// ticks without unrecoverable loss leave the path at its ceiling, and it stays
/// there for as long as no such loss appears.
pub proof fn law_a_healthy_path_ends_up_unpaced(pace: GlobalPace)
    requires
        pace.wf(),
    ensures
        exists|n: nat| #[trigger] pace.unpaced_from(n),
{
    let n: nat = pace.ceiling as nat + 1;
    lemma_recovery_climbs(pace, n);
    assert forall|m: nat| m >= n implies (#[trigger] pace.recovered(m)).limit is None by {
        lemma_recovery_lasts(pace, n, m);
    }
    assert(pace.unpaced_from(n));
}

/// Ten steps of recovery leave no limit or at least multiply it by nine.
proof fn lemma_ten_steps_of_recovery(pace: GlobalPace, n: nat)
    requires
        pace.wf(),
        pace.recovered(n).limit matches Some(limit) ==> limit >= ONE_QPS,
    ensures
        pace.recovered(n + 10).limit matches Some(next) ==> {
            &&& pace.recovered(n).limit matches Some(limit)
            &&& next >= 9 * limit
        },
{
    lemma_recovery_step(pace, n);
    lemma_recovery_step(pace, n + 1);
    lemma_recovery_step(pace, n + 2);
    lemma_recovery_step(pace, n + 3);
    lemma_recovery_step(pace, n + 4);
    lemma_recovery_step(pace, n + 5);
    lemma_recovery_step(pace, n + 6);
    lemma_recovery_step(pace, n + 7);
    lemma_recovery_step(pace, n + 8);
    lemma_recovery_step(pace, n + 9);
}

/// From one query per second or more, a hundred ticks without unrecoverable loss
/// are enough.
pub proof fn law_a_hundred_clean_ticks_unpace(pace: GlobalPace)
    requires
        pace.wf(),
        pace.ceiling <= UNLIMITED_QPS,
        pace.limit matches Some(limit) ==> limit >= ONE_QPS,
    ensures
        pace.recovered(100).limit is None,
{
    lemma_ten_steps_of_recovery(pace, 0);
    lemma_ten_steps_of_recovery(pace, 10);
    lemma_ten_steps_of_recovery(pace, 20);
    lemma_ten_steps_of_recovery(pace, 30);
    lemma_ten_steps_of_recovery(pace, 40);
    lemma_ten_steps_of_recovery(pace, 50);
    lemma_ten_steps_of_recovery(pace, 60);
    lemma_ten_steps_of_recovery(pace, 70);
    lemma_ten_steps_of_recovery(pace, 80);
    lemma_ten_steps_of_recovery(pace, 90);
    lemma_recovery_step(pace, 100);
}

/// Loss on one resolver only throttles that resolver: what a tick makes of a
/// resolver is decided by its own counters, samples, edge and pacing, whatever
/// pool it stands in and whatever the others lost.
pub proof fn law_a_resolver_is_judged_by_itself(
    one: ControllerView,
    one_pool: PoolView,
    one_next: ControllerView,
    one_next_pool: PoolView,
    other: ControllerView,
    other_pool: PoolView,
    other_next: ControllerView,
    other_next_pool: PoolView,
    i: int,
    tick_ns: nat,
    now_ns: u64,
)
    requires
        one.resolver_ticked(one_pool, one_next, one_next_pool, i, tick_ns, now_ns),
        other.resolver_ticked(other_pool, other_next, other_next_pool, i, tick_ns, now_ns),
        one.samplers[i] == other.samplers[i],
        one.edges[i] == other.edges[i],
        one_pool.resolvers[i] == other_pool.resolvers[i],
    ensures
        one_next.samplers[i] == other_next.samplers[i],
        one_next.edges[i] == other_next.edges[i],
        one_next_pool.resolvers[i] == other_next_pool.resolvers[i],
{
}

/// A handful of failures is not enough to conclude anything: until a window holds
/// [`MIN_SAMPLES`] queries, even total loss leaves an unthrottled resolver alone.
pub proof fn law_small_samples_are_not_a_signal(
    track: Track,
    current: Observation,
    tick_ns: nat,
    now_ns: u64,
)
    requires
        track.edge is None,
        track.sampler.observed(current, tick_ns).window.attempted < MIN_SAMPLES,
    ensures
        track.ticked(current, tick_ns, now_ns).edge is None,
        track.ticked(current, tick_ns, now_ns).limiter == track.limiter,
{
}

/// Clean traffic is not paced: without loss in the window an unthrottled resolver
/// stays as it is.
pub proof fn law_clean_traffic_is_not_paced(
    track: Track,
    current: Observation,
    tick_ns: nat,
    now_ns: u64,
)
    requires
        track.edge is None,
        track.sampler.observed(current, tick_ns).window.lost == 0,
    ensures
        track.ticked(current, tick_ns, now_ns).edge is None,
        track.ticked(current, tick_ns, now_ns).limiter == track.limiter,
{
}

/// Loss settles a resolver below the edge: once a window holds enough queries and
/// loses too many of them, the rate that it sustained is the edge, and the
/// resolver is paced at 85 hundredths of it, or at the floor.
pub proof fn law_loss_settles_below_the_edge(
    track: Track,
    current: Observation,
    tick_ns: nat,
    now_ns: u64,
)
    requires
        tick_ns > 0,
        ({
            let window = track.sampler.observed(current, tick_ns).window;
            &&& window.attempted >= MIN_SAMPLES
            &&& is_lossy(window.lost as int, window.attempted as int)
        }),
    ensures
        ({
            let sampler = track.sampler.observed(current, tick_ns);
            let next = track.ticked(current, tick_ns, now_ns);
            &&& next.edge matches Some(edge)
            &&& edge.qps == observed_rate(sampler.window.attempted as int, sampler.window_ns as int)
            &&& edge.seen_at_ns == now_ns
            &&& next.limiter.interval_ns == interval_for(retreat(edge.qps as int) as NanoQps)
            &&& edge.qps > MIN_RATE_QPS ==> retreat(edge.qps as int) < edge.qps
        }),
{
    let sampler = track.sampler.observed(current, tick_ns);
    let q = sampler.window.attempted as int;
    let t = sampler.window_ns as int;
    let u = UNLIMITED_QPS as int;
    assert(0 <= q * u / t <= u64::MAX * u) by (nonlinear_arith)
        requires
            0 <= q <= u64::MAX,
            t >= 1,
            u > 0,
    ;
}

/// A stale edge is forgotten: once it has outlived its time, a tick that finds no
/// new loss lets the resolver go unpaced again.
pub proof fn law_an_expired_edge_releases_the_throttle(
    track: Track,
    current: Observation,
    tick_ns: nat,
    now_ns: u64,
)
    requires
        track.edge matches Some(edge) && now_ns >= edge.seen_at_ns + EDGE_TTL_NS,
        ({
            let window = track.sampler.observed(current, tick_ns).window;
            ||| window.attempted < MIN_SAMPLES
            ||| !is_lossy(window.lost as int, window.attempted as int)
        }),
    ensures
        track.ticked(current, tick_ns, now_ns).edge is None,
        track.ticked(current, tick_ns, now_ns).limiter == track.limiter.with_rate(UNLIMITED_QPS),
{
}

/// Recovery climbs toward the target and never past it: easing never slows a
/// resolver down, and while its edge is known leaves it no faster than the retreat
/// target, unless it was faster before.
pub proof fn law_recovery_does_not_overshoot(edge: Edge, limiter: LimiterView, now_ns: u64)
    requires
        limiter.wf(),
    ensures
        ({
            let (next, eased) = relaxed(Some(edge), limiter, now_ns);
            &&& eased.interval_ns <= limiter.interval_ns
            &&& next is Some ==> eased.interval_ns >= min(
                limiter.interval_ns,
                interval_for(retreat(edge.qps as int) as NanoQps),
            )
        }),
{
    let u = UNLIMITED_QPS as int;
    let i = limiter.interval_ns;
    let current = rate_of(i);
    let target = retreat(edge.qps as int);
    assert(0 < current <= u) by (nonlinear_arith)
        requires
            current == u / i,
            1 <= i <= u,
            u > 0,
    ;
    if current < target {
        let rate = min(growth(current), target);
        assert(rate >= current + 1);
        assert((2 * u + rate) / (2 * rate) <= i) by (nonlinear_arith)
            requires
                rate >= u / i + 1,
                i >= 1,
                u > 0,
        ;
        law_spacing_is_antitone(rate as NanoQps, target as NanoQps);
    }
    assert(interval_for(UNLIMITED_QPS) == 1);
}

/// A bad patch cannot stall a scan: a resolver asked at least once a second is
/// asked at least once a second after any tick.
pub proof fn law_pacing_never_stalls(
    track: Track,
    current: Observation,
    tick_ns: nat,
    now_ns: u64,
)
    requires
        track.limiter.wf(),
        track.limiter.interval_ns <= interval_for(MIN_RATE_QPS),
        tick_ns > 0,
    ensures
        track.ticked(current, tick_ns, now_ns).limiter.interval_ns <= interval_for(MIN_RATE_QPS),
{
    let sampler = track.sampler.observed(current, tick_ns);
    let slowest = nearest(UNLIMITED_QPS as int, MIN_RATE_QPS as int);
    assert(slowest == 1_000_000_000) by (nonlinear_arith)
        requires
            slowest == (2 * 1_000_000_000_000_000_000 + 1_000_000_000) / (2 * 1_000_000_000),
    ;
    if sampler.window.attempted >= MIN_SAMPLES && is_lossy(
        sampler.window.lost as int,
        sampler.window.attempted as int,
    ) {
        law_loss_settles_below_the_edge(track, current, tick_ns, now_ns);
        let edge = track.ticked(current, tick_ns, now_ns).edge->0;
        law_spacing_is_antitone(MIN_RATE_QPS, retreat(edge.qps as int) as NanoQps);
    } else if let Some(edge) = track.edge {
        law_recovery_does_not_overshoot(edge, track.limiter, now_ns);
    }
}

impl Counters {
    /// The queries that were lost, for whatever reason.
    pub open spec fn losses(self) -> int {
        self.timeout + self.error
    }

    /// Whether these counters are `before` with more counted since, and no more losses than
    /// a count can hold.
    pub open spec fn continues(self, before: Counters) -> bool {
        &&& self.attempted >= before.attempted
        &&& self.losses() >= before.losses()
        &&& self.losses() <= u64::MAX
    }
}

impl Sampler {
    /// Whether the window was opened when the counters of a resolver stood at `opened`,
    /// and holds all that was counted until they stood at `last`.
    pub open spec fn spans(self, opened: Counters, last: Counters) -> bool {
        &&& self.last.attempted == last.attempted
        &&& self.last.lost == last.losses()
        &&& self.window.attempted == last.attempted - opened.attempted
        &&& self.window.lost == last.losses() - opened.losses()
    }
}

/// A query that errors is lost as much as one that times out: of two resolvers that are
/// known alike, and of which the counters tell the same attempts and the same number of
/// losses, whichever kind each loss is, a tick makes the same.
pub proof fn law_any_loss_counts_alike(
    one: ControllerView,
    one_pool: PoolView,
    one_next: ControllerView,
    one_next_pool: PoolView,
    i: int,
    other: ControllerView,
    other_pool: PoolView,
    other_next: ControllerView,
    other_next_pool: PoolView,
    j: int,
    tick_ns: nat,
    now_ns: u64,
)
    requires
        one.resolver_ticked(one_pool, one_next, one_next_pool, i, tick_ns, now_ns),
        other.resolver_ticked(other_pool, other_next, other_next_pool, j, tick_ns, now_ns),
        one.samplers[i] == other.samplers[j],
        one.edges[i] == other.edges[j],
        one_pool.resolvers[i].limiter == other_pool.resolvers[j].limiter,
        one_pool.resolvers[i].counters.attempted == other_pool.resolvers[j].counters.attempted,
        one_pool.resolvers[i].counters.timeout + one_pool.resolvers[i].counters.error
            == other_pool.resolvers[j].counters.timeout + other_pool.resolvers[j].counters.error,
    ensures
        one_next.samplers[i] == other_next.samplers[j],
        one_next.edges[i] == other_next.edges[j],
        one_next_pool.resolvers[i].limiter == other_next_pool.resolvers[j].limiter,
{
}

/// What a tick makes of a resolver, from its counters. The window holds what was counted
/// since it was opened, over all the ticks since. With twenty queries or more in it, of
/// which more than two in a hundred were lost to a timeout or to an error, the rate at
/// which they were sent is the edge, and the resolver is paced at 85 hundredths of that,
/// or at one query per second where that is more. The window is opened anew once it was
/// judged, or once it is ten seconds old; otherwise it stays open.
pub proof fn law_loss_of_either_kind_sets_an_edge(
    controller: ControllerView,
    pool: PoolView,
    next: ControllerView,
    next_pool: PoolView,
    i: int,
    opened: Counters,
    last: Counters,
    tick_ns: nat,
    now_ns: u64,
)
    requires
        controller.resolver_ticked(pool, next, next_pool, i, tick_ns, now_ns),
        controller.samplers[i].spans(opened, last),
        last.continues(opened),
        pool.resolvers[i].counters.continues(last),
        tick_ns > 0,
        controller.samplers[i].window_ns + tick_ns <= u128::MAX,
    ensures
        ({
            let current = pool.resolvers[i].counters;
            let attempted = current.attempted - opened.attempted;
            let lost = (current.timeout + current.error) - (opened.timeout + opened.error);
            let span = controller.samplers[i].window_ns + tick_ns;
            let lossy = attempted >= 20 && 50 * lost > attempted;
            &&& next_pool.resolvers[i].limiter.next_ns == pool.resolvers[i].limiter.next_ns
            &&& lossy ==> {
                &&& next.edges[i] matches Some(edge)
                &&& edge.seen_at_ns == now_ns
                &&& edge.qps * span <= attempted * 1_000_000_000_000_000_000
                &&& attempted * 1_000_000_000_000_000_000 < (edge.qps + 1) * span
                &&& exists|rate: NanoQps|
                    {
                        &&& 1_000_000_000 <= rate
                        &&& 100 * rate <= 85 * edge.qps || rate == 1_000_000_000
                        &&& 85 * edge.qps < 100 * (rate + 1)
                        &&& #[trigger] interval_for(rate)
                            == next_pool.resolvers[i].limiter.interval_ns
                    }
            }
            &&& !lossy ==> next.edges[i] is None || next.edges[i] == controller.edges[i]
            &&& attempted < 20 && span < 10_000_000_000 ==> {
                &&& next.samplers[i].spans(opened, current)
                &&& next.samplers[i].window_ns == span
            }
            &&& attempted >= 20 || span >= 10_000_000_000 ==> {
                &&& next.samplers[i].spans(current, current)
                &&& next.samplers[i].window_ns == 0
            }
        }),
{
    let current = pool.resolvers[i].counters;
    let seen = observation_of(current);
    let track = controller.track(pool, i);
    let sampler = track.sampler.observed(seen, tick_ns);
    let attempted = current.attempted - opened.attempted;
    let lost = current.losses() - opened.losses();
    assert(sampler.window.attempted == attempted);
    assert(sampler.window.lost == lost);
    if attempted >= 20 && 50 * lost > attempted {
        let span = sampler.window_ns;
        law_an_observed_rate_accounts_for_the_queries(sampler.window.attempted, span);
        let qps = observed_rate(attempted, span as int) as NanoQps;
        law_retreat_is_to_85_hundredths(qps);
        let rate = retreat(qps as int) as NanoQps;
        assert(rate == retreat(qps as int));
        assert(interval_for(rate) == next_pool.resolvers[i].limiter.interval_ns);
    }
}

/// A resolver that loses nothing too many is not slowed down: without an edge its pacing
/// stays as it is. An edge that was seen less than thirty seconds ago stays, and the pacing
/// climbs by a quarter, at most to 85 hundredths of the edge, or stays where it is as fast
/// as that. An older one is forgotten, and the resolver is not paced.
pub proof fn law_without_loss_the_pacing_eases(
    controller: ControllerView,
    pool: PoolView,
    next: ControllerView,
    next_pool: PoolView,
    i: int,
    opened: Counters,
    last: Counters,
    tick_ns: nat,
    now_ns: u64,
)
    requires
        controller.resolver_ticked(pool, next, next_pool, i, tick_ns, now_ns),
        controller.samplers[i].spans(opened, last),
        last.continues(opened),
        pool.resolvers[i].counters.continues(last),
        pool.resolvers[i].limiter.wf(),
        tick_ns > 0,
        controller.samplers[i].window_ns + tick_ns <= u128::MAX,
        ({
            let current = pool.resolvers[i].counters;
            let attempted = current.attempted - opened.attempted;
            let lost = (current.timeout + current.error) - (opened.timeout + opened.error);
            attempted < 20 || 50 * lost <= attempted
        }),
    ensures
        ({
            let was = pool.resolvers[i].limiter;
            let is = next_pool.resolvers[i].limiter;
            &&& is.next_ns == was.next_ns
            &&& controller.edges[i] is None ==> next.edges[i] is None && is == was
            &&& controller.edges[i] matches Some(edge) ==> {
                let stale = now_ns >= edge.seen_at_ns + 30_000_000_000;
                &&& stale ==> next.edges[i] is None && is.interval_ns == 1
                &&& !stale ==> {
                    &&& next.edges[i] == Some(edge)
                    &&& rate_of(was.interval_ns) >= retreat(edge.qps as int) ==> is == was
                    &&& rate_of(was.interval_ns) < retreat(edge.qps as int)
                        ==> is.interval_ns == interval_for(
                        (if growth(rate_of(was.interval_ns)) <= retreat(edge.qps as int) {
                            growth(rate_of(was.interval_ns))
                        } else {
                            retreat(edge.qps as int)
                        }) as NanoQps,
                    )
                }
            }
        }),
{
    let current = pool.resolvers[i].counters;
    let sampler = controller.track(pool, i).sampler.observed(observation_of(current), tick_ns);
    let attempted = current.attempted - opened.attempted;
    let lost = current.losses() - opened.losses();
    assert(sampler.window.attempted == attempted);
    assert(sampler.window.lost == lost);
    law_a_rate_and_its_spacing_make_a_second(UNLIMITED_QPS);
}

/// A tick touches nothing of a resolver but its pacing.
pub proof fn law_a_tick_changes_the_pacing_alone(
    controller: ControllerView,
    pool: PoolView,
    next: ControllerView,
    next_pool: PoolView,
    i: int,
    tick_ns: nat,
    now_ns: u64,
)
    requires
        controller.resolver_ticked(pool, next, next_pool, i, tick_ns, now_ns),
    ensures
        ({
            let was = pool.resolvers[i];
            let is = next_pool.resolvers[i];
            &&& is.same_but_for_records((HealthView { limiter: is.limiter, ..was }))
            &&& is.active == was.active
            &&& is.counters == was.counters
            &&& is.benched_until_ns == was.benched_until_ns
            &&& is.consecutive_errors == was.consecutive_errors
            &&& is.rtt == was.rtt
        }),
{
}

/// Nothing sampled is a window that was opened with nothing counted, and holds nothing.
pub proof fn law_a_new_window_is_empty(opened: Counters)
    requires
        opened.attempted == 0,
        opened.timeout == 0,
        opened.error == 0,
    ensures
        Sampler::fresh().spans(opened, opened),
        Sampler::fresh().window_ns == 0,
        Observation::none().attempted == 0,
        Observation::none().lost == 0,
{
}

/// What was counted since is the difference, and a tick lasts as long as it lasted, but at
/// least a microsecond; one comes every half second. Sums that fit are exact.
pub proof fn law_counts_are_taken_by_difference(
    now: u64,
    before: u64,
    elapsed: Duration,
    a: u64,
    b: u64,
)
    ensures
        now >= before ==> since(now, before) == now - before,
        now < before ==> since(now, before) == 0,
        duration_nanos(elapsed) >= 1000 ==> tick_nanos(elapsed) == duration_nanos(elapsed),
        duration_nanos(elapsed) < 1000 ==> tick_nanos(elapsed) == 1000,
        2 * TICK_MS == 1000,
        a + b <= u64::MAX ==> capped_sum(a as int, b as int) == a + b,
        a + b > u64::MAX ==> capped_sum(a as int, b as int) == u64::MAX,
{
}

/// Every attempt counts toward the rate that the path saw: another `more` attempts of one
/// resolver are that many more in all, and where no resolver was sent anything there are
/// none.
pub proof fn law_every_attempt_is_counted(
    controller: ControllerView,
    pool: PoolView,
    i: int,
    more: u64,
    n: int,
)
    requires
        0 <= i < n <= pool.resolvers.len(),
        controller.samplers[i].last.attempted <= pool.resolvers[i].counters.attempted,
        pool.resolvers[i].counters.attempted + more <= u64::MAX,
    ensures
        ({
            let health = pool.resolvers[i];
            let busier = HealthView {
                counters: Counters {
                    attempted: (health.counters.attempted + more) as u64,
                    ..health.counters
                },
                ..health
            };
            controller.attempted_since(pool.with_resolver(i, busier), n)
                == controller.attempted_since(pool, n) + more
        }),
        (forall|r: int|
            0 <= r < n ==> (#[trigger] pool.resolvers[r]).counters.attempted
                == controller.samplers[r].last.attempted) ==> controller.attempted_since(pool, n)
            == 0,
    decreases n,
{
    let health = pool.resolvers[i];
    let busier = HealthView {
        counters: Counters {
            attempted: (health.counters.attempted + more) as u64,
            ..health.counters
        },
        ..health
    };
    let changed = pool.with_resolver(i, busier);
    if i < n - 1 {
        law_every_attempt_is_counted(controller, pool, i, more, n - 1);
        assert(changed.resolvers[n - 1] == pool.resolvers[n - 1]);
        assert(pool.resolvers[n - 1] == pool.resolvers[n - 1]);
    } else {
        lemma_attempts_elsewhere(controller, pool, changed, n - 1);
        assert(changed.resolvers[i] == busier);
        if forall|r: int|
            0 <= r < n ==> (#[trigger] pool.resolvers[r]).counters.attempted
                == controller.samplers[r].last.attempted {
            lemma_no_attempts(controller, pool, n);
        }
    }
}

/// Resolvers that are the same were sent as much.
proof fn lemma_attempts_elsewhere(
    controller: ControllerView,
    pool: PoolView,
    other: PoolView,
    n: int,
)
    requires
        forall|r: int| 0 <= r < n ==> #[trigger] pool.resolvers[r] == other.resolvers[r],
    ensures
        controller.attempted_since(pool, n) == controller.attempted_since(other, n),
    decreases n,
{
    if n > 0 {
        lemma_attempts_elsewhere(controller, pool, other, n - 1);
        assert(pool.resolvers[n - 1] == other.resolvers[n - 1]);
    }
}

/// Resolvers that were sent nothing have no attempts.
proof fn lemma_no_attempts(controller: ControllerView, pool: PoolView, n: int)
    requires
        forall|r: int|
            0 <= r < n ==> (#[trigger] pool.resolvers[r]).counters.attempted
                == controller.samplers[r].last.attempted,
    ensures
        controller.attempted_since(pool, n) == 0,
    decreases n,
{
    if n > 0 {
        lemma_no_attempts(controller, pool, n - 1);
        assert(pool.resolvers[n - 1].counters.attempted
            == controller.samplers[n - 1].last.attempted);
    }
}

/// The global rate, from what finished and what failed. With a hundred queries or more
/// finished in a tick, of which more than two in a hundred failed outright, the limit goes
/// to 85 hundredths of what it was, or of the rate that was seen where there was none, but
/// not below one query per second nor above the ceiling. Otherwise a limit climbs by a
/// quarter, rounded up, and is dropped where that reaches the ceiling, which is then the
/// rate; without a limit nothing changes. The limiter is set to what the limit becomes.
pub proof fn law_the_global_rate_follows_failures(
    pace: GlobalPace,
    limiter: LimiterView,
    completed: u64,
    failed: u64,
    observed: NanoQps,
)
    requires
        pace.wf(),
    ensures
        ({
            let (next, rate) = pace.adjusted(completed, failed, observed as int);
            let set = repaced(limiter, rate);
            let basis = match pace.limit {
                Some(limit) => limit,
                None => observed,
            };
            &&& next.ceiling == pace.ceiling
            &&& set.next_ns == limiter.next_ns
            &&& completed >= 100 && 50 * failed > completed ==> {
                &&& next.limit matches Some(limit)
                &&& rate == Some(limit)
                &&& set.interval_ns == interval_for(limit)
                &&& limit <= pace.ceiling
                &&& limit >= 1_000_000_000 || limit == pace.ceiling
                &&& 100 * limit <= 85 * basis || limit == 1_000_000_000 || limit
                    == pace.ceiling && pace.ceiling < 1_000_000_000
                &&& 85 * basis < 100 * (limit + 1) || limit == pace.ceiling
            }
            &&& completed < 100 || 50 * failed <= completed ==> match pace.limit {
                None => next.limit is None && rate is None && set == limiter,
                Some(limit) => match next.limit {
                    Some(climbed) => {
                        &&& 4 * climbed >= 5 * limit
                        &&& 4 * (climbed - 1) < 5 * limit
                        &&& climbed < pace.ceiling
                        &&& set.interval_ns == interval_for(climbed)
                    },
                    None => {
                        &&& 5 * limit > 4 * (pace.ceiling - 1)
                        &&& set.interval_ns == interval_for(pace.ceiling)
                    },
                },
            }
        }),
{
}

} // verus!

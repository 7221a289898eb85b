//! What a worker does with one query: when it is sent, to which resolver, and what is
//! made of the outcome.
//!
//! Workers are not bound to a resolver, and their number does not set what is sent: the
//! cap on queries across all resolvers and the permits of each one are the pool's, and a
//! query is held to both.

use std::time::Duration;

use hickory_client::proto::rr::Name;
use hickory_client::proto::ProtoError;
use hickory_client::ClientError;

use vstd::arithmetic::div_mod::lemma_fundamental_div_mod;
use vstd::prelude::*;

use crate::address::Endpoint;
use crate::error::BlastDNSError;
use crate::health::{Counters, HealthView, ResolverHealth};
use crate::limiter::{pause_ns, LimiterView, RateLimiter};
use crate::names::{ascii_name, host_name, is_request_timeout};
use crate::pool::{
    law_a_pass_finds_what_there_is, law_a_pass_stays_within_the_pool,
    law_a_pass_takes_the_first_in_rotation, law_a_reservation_is_within_the_cap,
    lemma_with_resolver_wf, PoolView, Reserve, ResolverPool,
};
use crate::span::duration_nanos;

verus! {

/// A query: the hostname to ask for, and the code of the record type.
#[derive(Debug)]
pub struct QuerySpec {
    pub host: String,
    pub record_type: u16,
}

/// A response, with what is looked at of it.
#[derive(Debug)]
pub struct Answer<T> {
    pub message: T,
    /// Whether the server dropped records to fit the payload.
    pub truncated: bool,
    /// How many records answer the query.
    pub answers: usize,
}

/// What came of sending a query to a resolver and waiting for the response.
#[derive(Debug)]
pub enum Exchange<T> {
    /// The resolver could not be connected to.
    NotConnected(BlastDNSError),
    /// A response arrived.
    Answered(Answer<T>),
    /// The query failed.
    Failed(ClientError),
    /// The deadline passed first.
    Elapsed,
}

/// What an exchange with `resolver` under this deadline comes to.
pub open spec fn exchange_result<T>(
    resolver: Endpoint,
    exchange: Exchange<T>,
    deadline: Duration,
) -> Result<Answer<T>, BlastDNSError> {
    match exchange {
        Exchange::NotConnected(error) => Err(error),
        Exchange::Answered(answer) => Ok(answer),
        Exchange::Failed(source) => Err(BlastDNSError::ResolverRequestFailed { resolver, source }),
        Exchange::Elapsed => Err(BlastDNSError::QueryTimedOut { resolver, timeout: deadline }),
    }
}

/// Whether a failed exchange counts as a timeout rather than as an error.
pub open spec fn lost_in_time<T>(exchange: Exchange<T>) -> bool {
    match exchange {
        Exchange::NotConnected(_) => false,
        Exchange::Answered(_) => false,
        Exchange::Failed(cause) => is_request_timeout(cause),
        Exchange::Elapsed => true,
    }
}

impl ResolverHealth {
    /// What an exchange with this resolver under `deadline` comes to.
    pub fn query_within<T>(&self, exchange: Exchange<T>, deadline: Duration) -> (result: Result<
        Answer<T>,
        BlastDNSError,
    >)
        ensures
            result == exchange_result(self@.resolver, exchange, deadline),
    {
        match exchange {
            Exchange::NotConnected(error) => Err(error),
            Exchange::Answered(answer) => Ok(answer),
            Exchange::Failed(source) => Err(
                BlastDNSError::ResolverRequestFailed { resolver: self.addr(), source },
            ),
            Exchange::Elapsed => Err(
                BlastDNSError::QueryTimedOut { resolver: self.addr(), timeout: deadline },
            ),
        }
    }

    /// What an exchange with this resolver under the configured request timeout comes
    /// to.
    pub fn query_bounded<T>(&self, exchange: Exchange<T>) -> (result: Result<
        Answer<T>,
        BlastDNSError,
    >)
        ensures
            result == exchange_result(self@.resolver, exchange, self@.request_timeout),
    {
        self.query_within(exchange, self.request_timeout())
    }

    /// Why this resolver cannot be connected to, where the connection failed.
    pub fn setup_failed(&self, source: ProtoError) -> (error: BlastDNSError)
        ensures
            error == (BlastDNSError::ResolverSetupFailed { resolver: self@.resolver, source }),
    {
        BlastDNSError::ResolverSetupFailed { resolver: self.addr(), source }
    }

    /// Why this resolver cannot be connected to, where no socket could be bound for it.
    pub fn bind_failed(&self, reason: &str) -> (error: BlastDNSError)
        ensures
            error matches BlastDNSError::Configuration(text) && text@
                == "failed to bind socket for "@ + self@.resolver.text() + ": "@ + reason@,
    {
        let mut text: String = "failed to bind socket for ".to_owned();
        text.append(self.addr().to_text().as_str());
        text.append(": ");
        text.append(reason);
        BlastDNSError::Configuration(text)
    }

    /// Take what came of probing this resolver, deactivating it if it did not answer.
    pub fn probe<T>(&mut self, exchange: Exchange<T>) -> (alive: bool)
        requires
            old(self)@.wf(),
        ensures
            final(self)@.wf(),
            alive == (exchange is Answered),
            final(self)@ == old(self)@.after_probe(alive),
    {
        let deadline: Duration = self.probe_deadline();
        let alive: bool = self.query_within(exchange, deadline).is_ok();
        self.record_probe(alive);
        alive
    }
}

/// How many of `exchanges` were answered.
pub open spec fn count_answered<T>(exchanges: Seq<Exchange<T>>) -> nat
    decreases exchanges.len(),
{
    if exchanges.len() == 0 {
        0
    } else {
        count_answered(exchanges.drop_last()) + (if exchanges.last() is Answered {
            1nat
        } else {
            0nat
        })
    }
}

impl ResolverPool {
    /// Take what came of probing every resolver, deactivating those that did not answer.
    /// Returns how many did.
    pub fn probe<T>(&mut self, exchanges: Vec<Exchange<T>>) -> (answered: usize)
        requires
            old(self)@.wf(),
            exchanges@.len() == old(self)@.resolvers.len(),
        ensures
            final(self)@.wf(),
            answered == count_answered(exchanges@),
            final(self)@ == (PoolView { resolvers: final(self)@.resolvers, ..old(self)@ }),
            final(self)@.resolvers.len() == old(self)@.resolvers.len(),
            forall|i: int|
                0 <= i < exchanges@.len() ==> #[trigger] final(self)@.resolvers[i] == old(
                    self,
                )@.resolvers[i].after_probe(exchanges@[i] is Answered),
    {
        let ghost before = self@;
        let ghost probed = exchanges@;
        let mut answered: usize = 0;
        let mut i: usize = 0;
        for exchange in it: exchanges
            invariant
                before == old(self)@,
                probed == exchanges@,
                it.seq() == probed,
                i == it.index(),
                before.wf(),
                self@.wf(),
                probed.len() == before.resolvers.len(),
                self@.resolvers.len() == before.resolvers.len(),
                self@ == (PoolView { resolvers: self@.resolvers, ..before }),
                answered == count_answered(probed.take(i as int)),
                answered <= i,
                forall|j: int|
                    0 <= j < i ==> #[trigger] self@.resolvers[j] == before.resolvers[j].after_probe(
                        probed[j] is Answered,
                    ),
                forall|j: int|
                    i <= j < probed.len() ==> #[trigger] self@.resolvers[j] == before.resolvers[j],
        {
            let ghost passed = self@;
            assert(probed.take(i + 1).drop_last() =~= probed.take(i as int));
            assert(passed.resolvers[i as int].wf());
            if self.resolver_mut(i).probe(exchange) {
                answered += 1;
            }
            proof {
                lemma_with_resolver_wf(passed, i as int, self@.resolvers[i as int]);
            }
            i += 1;
        }
        assert(probed.take(i as int) =~= probed);
        answered
    }
}

/// The code of the record type that names a zone's servers: NS.
pub const NS_RECORD_TYPE: u16 = 2;

/// What a startup probe asks: the root nameservers, which every working recursive
/// resolver answers, so liveness does not depend on any external zone.
pub fn probe_query() -> (query: QuerySpec)
    ensures
        query.host@ == "."@,
        query.record_type == NS_RECORD_TYPE,
        query.record_type == 2,
{
    QuerySpec { host: ".".to_owned(), record_type: NS_RECORD_TYPE }
}

/// What is made of an exchange.
#[derive(Debug)]
pub enum Received<T> {
    /// The response is an arbitrary subset: the query is to be asked again over TCP,
    /// which has no size limit, rather than reporting a partial answer as whole.
    Refetch(Answer<T>),
    /// The query ends with this result.
    Finished(Result<T, BlastDNSError>),
}

/// Whether `received` is what is made of an exchange with the resolver `health`.
pub open spec fn is_received<T>(
    health: HealthView,
    exchange: Exchange<T>,
    received: Received<T>,
) -> bool {
    match exchange {
        Exchange::Answered(answer) => if answer.truncated {
            received == Received::Refetch(answer)
        } else {
            received == Received::Finished(Ok::<T, BlastDNSError>(answer.message))
        },
        _ => {
            &&& received matches Received::Finished(Err(error))
            &&& exchange_result(health.resolver, exchange, health.request_timeout) == Err::<
                Answer<T>,
                BlastDNSError,
            >(error)
        },
    }
}

/// The resolver `health` once an exchange with it is recorded.
pub open spec fn after_exchange<T>(
    health: HealthView,
    exchange: Exchange<T>,
    rtt: Duration,
    now_ns: int,
) -> HealthView {
    match exchange {
        Exchange::Answered(answer) => if answer.truncated {
            health.after_truncation()
        } else {
            health.after_response(rtt, answer.answers > 0, now_ns)
        },
        _ => health.after_error(lost_in_time(exchange), now_ns),
    }
}

/// Record what came of sending a query to the resolver `rtt` ago, and say what is
/// made of it.
pub fn query<T>(health: &mut ResolverHealth, exchange: Exchange<T>, rtt: Duration, now_ns: u64) -> (
received: Received<T>)
    requires
        old(health)@.wf(),
        exchange is Answered || old(health)@.can_err(now_ns as int),
    ensures
        final(health)@.wf(),
        is_received(old(health)@, exchange, received),
        final(health)@ == after_exchange(old(health)@, exchange, rtt, now_ns as int),
{
    if let Exchange::NotConnected(error) = exchange {
        health.record_error(false, now_ns);
        return Received::Finished(Err(error));
    }
    match health.query_bounded(exchange) {
        Ok(answer) => {
            if answer.truncated {
                health.record_truncated();
                return Received::Refetch(answer);
            }
            health.record_response(rtt, answer.answers > 0, now_ns);
            Received::Finished(Ok(answer.message))
        },
        Err(error) => {
            health.record_error(error.is_timeout(), now_ns);
            Received::Finished(Err(error))
        },
    }
}

/// What asking again over TCP gave. Nothing where TCP is unavailable or fails, which
/// leaves the caller with the partial answer.
pub fn refetch_over_tcp<T>(exchange: Exchange<T>) -> (full: Option<Answer<T>>)
    ensures
        full == (match exchange {
            Exchange::Answered(answer) => Some(answer),
            _ => None,
        }),
{
    match exchange {
        Exchange::Answered(answer) => Some(answer),
        _ => None,
    }
}

/// The full answer, or the partial one where there is none: that still beats nothing.
pub open spec fn fuller<T>(partial: Answer<T>, full: Option<Answer<T>>) -> Answer<T> {
    match full {
        Some(full) => full,
        None => partial,
    }
}

/// Record a query to the resolver whose response was truncated, once asking again
/// over TCP gave `full`.
pub fn refetched<T>(
    health: &mut ResolverHealth,
    partial: Answer<T>,
    full: Option<Answer<T>>,
    rtt: Duration,
    now_ns: u64,
) -> (message: T)
    requires
        old(health)@.wf(),
    ensures
        final(health)@.wf(),
        message == fuller(partial, full).message,
        final(health)@ == old(health)@.after_response(
            rtt,
            fuller(partial, full).answers > 0,
            now_ns as int,
        ),
{
    let answer: Answer<T> = match full {
        Some(full) => full,
        None => partial,
    };
    health.record_response(rtt, answer.answers > 0, now_ns);
    answer.message
}

/// How far a query has got.
#[derive(Clone, Copy, Debug, PartialEq, Eq, Structural)]
pub enum Stage {
    /// It waits for its turn under the global rate. Pacing comes before capacity, so
    /// that the configured rate governs sends instead of being distorted by
    /// completion timing.
    Pace,
    /// It has had its turn and waits for a place under the cap on queries across all
    /// resolvers.
    Enter,
    /// It has its place and needs a resolver.
    Reserve,
    /// It waits for a permit of the resolver at this position.
    Claim(usize),
    /// The resolver at this position is reserved. Its own pacing is respected on top
    /// of the global rate.
    PaceResolver(usize),
    /// The query may be sent to the resolver at this position.
    Send(usize),
    /// The query was sent to the resolver at this position.
    InFlight(usize),
    /// There is no resolver for it, and its place is to be given up.
    Leave,
    /// The query has ended.
    Settled,
}

/// What a worker is to do before the next step.
#[derive(Debug)]
pub enum Action {
    /// Nothing.
    Proceed,
    /// Sleep.
    Sleep(Duration),
    /// Let other tasks run.
    Yield,
    /// Wait until there may be a place under the cap on queries across all resolvers.
    AwaitPlace,
    /// Wait until the resolver at this position may have a permit to give.
    AwaitPermit(usize),
    /// Send the query to the resolver at this position.
    Query(usize),
    /// Reply that there is no resolver.
    Refuse,
}

/// A worker's hold on one query.
pub struct Dispatch {
    stage: Stage,
}

impl View for Dispatch {
    type V = Stage;

    closed spec fn view(&self) -> Stage {
        self.stage
    }
}

/// Whether `action` is what the holder of the slot at `slot_ns` does at `now_ns`.
pub open spec fn waits_for_slot(action: Action, slot_ns: int, now_ns: int) -> bool {
    if pause_ns(slot_ns, now_ns) > 0 {
        action matches Action::Sleep(d) && duration_nanos(d) == pause_ns(slot_ns, now_ns)
    } else {
        action is Proceed
    }
}

/// Whether `action` waits for the first of the active resolvers' sentences to lapse.
pub open spec fn waits_for_release(action: Action, pool: PoolView, now_ns: int) -> bool {
    exists|until_ns: int|
        {
            &&& #[trigger] pool.is_first_release(until_ns)
            &&& if until_ns > now_ns {
                action matches Action::Sleep(d) && duration_nanos(d) == until_ns - now_ns
            } else {
                action is Yield
            }
        }
}

impl Stage {
    /// The position of the resolver that this stage speaks of, if it does.
    pub open spec fn resolver(self) -> Option<int> {
        match self {
            Stage::Claim(k) => Some(k as int),
            Stage::PaceResolver(k) => Some(k as int),
            Stage::Send(k) => Some(k as int),
            Stage::InFlight(k) => Some(k as int),
            _ => None,
        }
    }

    /// The position of the resolver that a permit is held of, if one is.
    pub open spec fn holds(self) -> Option<int> {
        match self {
            Stage::PaceResolver(k) => Some(k as int),
            Stage::Send(k) => Some(k as int),
            Stage::InFlight(k) => Some(k as int),
            _ => None,
        }
    }

    /// Whether the query has a place under the cap on queries across all resolvers. It
    /// has one from before a resolver is reserved for it until it ends.
    pub open spec fn inside(self) -> bool {
        match self {
            Stage::Pace => false,
            Stage::Enter => false,
            Stage::Settled => false,
            _ => true,
        }
    }

    /// Whether the stage fits a pool: the resolver that it speaks of is there.
    pub open spec fn fits(self, pool: PoolView) -> bool {
        self.resolver() matches Some(k) ==> 0 <= k < pool.resolvers.len()
    }

    /// Whether a pass over `pool` at `now_ns` that came to `outcome` leads to `next`
    /// and `action`.
    pub open spec fn reserves(
        pool: PoolView,
        now_ns: int,
        outcome: Reserve,
        next: Stage,
        action: Action,
    ) -> bool {
        match outcome {
            Reserve::Reserved(k) => next == Stage::PaceResolver(k) && action is Proceed,
            Reserve::NoneActive => next == Stage::Leave && action is Proceed,
            Reserve::AllBenched => next == Stage::Reserve && waits_for_release(action, pool, now_ns),
            Reserve::Saturated(k) => next == Stage::Claim(k) && action == Action::AwaitPermit(k),
        }
    }

    /// Whether a step at `now_ns` leads from this stage, `pool` and `limiter` to
    /// `next`, `next_pool` and `next_limiter`, with `action` to do before the step
    /// after it.
    pub open spec fn steps(
        self,
        pool: PoolView,
        limiter: LimiterView,
        now_ns: int,
        next: Stage,
        next_pool: PoolView,
        next_limiter: LimiterView,
        action: Action,
    ) -> bool {
        match self {
            Stage::Pace => {
                &&& next == Stage::Enter
                &&& next_pool == pool
                &&& next_limiter == limiter.advance(now_ns)
                &&& waits_for_slot(action, limiter.slot(now_ns), now_ns)
            },
            Stage::Enter => {
                &&& next_limiter == limiter
                &&& if pool.entered < pool.capacity {
                    &&& next == Stage::Reserve
                    &&& next_pool == pool.with_entered(pool.entered + 1)
                    &&& action is Proceed
                } else {
                    &&& next == Stage::Enter
                    &&& next_pool == pool
                    &&& action is AwaitPlace
                }
            },
            Stage::Reserve => {
                &&& next_limiter == limiter
                &&& exists|outcome: Reserve|
                    {
                        &&& #[trigger] pool.passes(now_ns, outcome, next_pool)
                        &&& Stage::reserves(pool, now_ns, outcome, next, action)
                    }
            },
            Stage::Claim(k) => {
                let health = pool.resolvers[k as int];
                &&& next_limiter == limiter
                &&& action is Proceed
                &&& if health.eligible(now_ns) && health.free > 0 {
                    &&& next == Stage::PaceResolver(k)
                    &&& next_pool == pool.with_resolver(k as int, health.with_free(health.free - 1))
                } else {
                    &&& next == Stage::Reserve
                    &&& next_pool == pool
                }
            },
            Stage::PaceResolver(k) => {
                let health = pool.resolvers[k as int];
                &&& next == Stage::Send(k)
                &&& next_limiter == limiter
                &&& next_pool == pool.with_resolver(
                    k as int,
                    (HealthView { limiter: health.limiter.advance(now_ns), ..health }),
                )
                &&& waits_for_slot(action, health.limiter.slot(now_ns), now_ns)
            },
            Stage::Send(k) => {
                &&& next == Stage::InFlight(k)
                &&& next_limiter == limiter
                &&& next_pool == pool.with_resolver(
                    k as int,
                    pool.resolvers[k as int].after_dispatch(),
                )
                &&& action == Action::Query(k)
            },
            Stage::Leave => {
                &&& next == Stage::Settled
                &&& next_limiter == limiter
                &&& next_pool == pool.with_entered(pool.entered - 1)
                &&& action is Refuse
            },
            Stage::InFlight(_) => false,
            Stage::Settled => false,
        }
    }
}

/// What a caller whose slot is `slot_ns` does at `now_ns`.
fn wait_for_slot(slot_ns: u64, now_ns: u64) -> (action: Action)
    ensures
        waits_for_slot(action, slot_ns as int, now_ns as int),
{
    match RateLimiter::pause(slot_ns, now_ns) {
        Some(pause) => Action::Sleep(pause),
        None => Action::Proceed,
    }
}

impl Dispatch {
    /// A query that has just been taken off the queue.
    pub fn new() -> (dispatch: Dispatch)
        ensures
            dispatch@ == Stage::Pace,
    {
        Dispatch { stage: Stage::Pace }
    }

    /// How far the query has got.
    pub fn stage(&self) -> (stage: Stage)
        ensures
            stage == self@,
    {
        self.stage
    }

    /// Take one step at `now_ns`, and say what to do before the next.
    pub fn step(&mut self, pool: &mut ResolverPool, limiter: &mut RateLimiter, now_ns: u64) -> (
    action: Action)
        requires
            old(pool)@.wf(),
            old(limiter)@.wf(),
            old(self)@.may_step(old(pool)@),
            !(old(self)@ is InFlight),
            !(old(self)@ is Settled),
        ensures
            final(pool)@.wf(),
            final(limiter)@.wf(),
            final(pool)@.resolvers.len() == old(pool)@.resolvers.len(),
            final(self)@.may_step(final(pool)@),
            old(self)@.may_settle(old(pool)@) ==> final(self)@.may_settle(final(pool)@),
            old(self)@.steps(
                old(pool)@,
                old(limiter)@,
                now_ns as int,
                final(self)@,
                final(pool)@,
                final(limiter)@,
                action,
            ),
    {
        match self.stage {
            Stage::Pace => {
                let slot_ns: u64 = limiter.acquire(now_ns);
                self.stage = Stage::Enter;
                wait_for_slot(slot_ns, now_ns)
            },
            Stage::Enter => {
                if pool.enter() {
                    self.stage = Stage::Reserve;
                    Action::Proceed
                } else {
                    Action::AwaitPlace
                }
            },
            Stage::Reserve => {
                let outcome: Reserve = pool.reserve(now_ns);
                proof {
                    law_a_pass_stays_within_the_pool(old(pool)@, now_ns, outcome, pool@);
                }
                match outcome {
                    Reserve::Reserved(k) => {
                        proof {
                            law_a_reservation_is_within_the_cap(
                                old(pool)@,
                                now_ns,
                                k,
                                pool@,
                            );
                            assert(old(pool)@.resolvers[k as int].wf());
                        }
                        self.stage = Stage::PaceResolver(k);
                        Action::Proceed
                    },
                    Reserve::NoneActive => {
                        self.stage = Stage::Leave;
                        Action::Proceed
                    },
                    Reserve::AllBenched => {
                        assert forall|until_ns: int| #[trigger] pool@.is_first_release(
                            until_ns,
                        ) implies old(pool)@.is_first_release(until_ns) by {
                            assert(pool@.resolvers == old(pool)@.resolvers);
                        }
                        assert(pool@.has_active()) by {
                            assert(pool@.resolvers == old(pool)@.resolvers);
                        }
                        match pool.sleep_until_first_eligible(now_ns) {
                            Some(wait) => Action::Sleep(wait),
                            None => Action::Yield,
                        }
                    },
                    Reserve::Saturated(k) => {
                        self.stage = Stage::Claim(k);
                        Action::AwaitPermit(k)
                    },
                }
            },
            Stage::Claim(k) => {
                assert(pool@.resolvers[k as int].wf());
                self.stage = if pool.claim(k, now_ns) {
                    Stage::PaceResolver(k)
                } else {
                    Stage::Reserve
                };
                Action::Proceed
            },
            Stage::PaceResolver(k) => {
                assert(pool@.resolvers[k as int].wf());
                let slot_ns: u64 = pool.resolver_mut(k).acquire_rate(now_ns);
                proof {
                    lemma_with_resolver_wf(old(pool)@, k as int, pool@.resolvers[k as int]);
                }
                self.stage = Stage::Send(k);
                wait_for_slot(slot_ns, now_ns)
            },
            Stage::Send(k) => {
                assert(pool@.resolvers[k as int].wf());
                pool.resolver_mut(k).record_dispatch();
                proof {
                    lemma_with_resolver_wf(old(pool)@, k as int, pool@.resolvers[k as int]);
                }
                self.stage = Stage::InFlight(k);
                Action::Query(k)
            },
            Stage::Leave => {
                pool.leave();
                self.stage = Stage::Settled;
                Action::Refuse
            },
            _ => Action::Proceed,
        }
    }
}

/// Take up a query. Unusable hostnames are rejected before a dispatch slot is spent on
/// them.
pub fn take_up(query: QuerySpec) -> (taken: Result<(Name, Dispatch), BlastDNSError>)
    ensures
        match ascii_name(query.host@) {
            Ok(name) => taken matches Ok((asked, dispatch)) && asked == name && dispatch@
                == Stage::Pace,
            Err(source) => taken == Err::<(Name, Dispatch), BlastDNSError>(
                BlastDNSError::InvalidHostname { name: query.host, source },
            ),
        },
{
    match host_name(query.host) {
        Ok(name) => Ok((name, Dispatch::new())),
        Err(error) => Err(error),
    }
}

impl Dispatch {
    /// Take what came of sending the query `rtt` ago. Where that ends it, the
    /// resolver's permit and the query's place are given back.
    pub fn received<T>(
        &mut self,
        pool: &mut ResolverPool,
        exchange: Exchange<T>,
        rtt: Duration,
        now_ns: u64,
    ) -> (received: Received<T>)
        requires
            old(pool)@.wf(),
            old(self)@ is InFlight,
            old(self)@.may_settle(old(pool)@),
            exchange is Answered || old(pool)@.resolvers[old(self)@.resolver()->0].can_err(
                now_ns as int,
            ),
        ensures
            final(pool)@.wf(),
            final(pool)@.resolvers.len() == old(pool)@.resolvers.len(),
            is_received(old(pool)@.resolvers[old(self)@.resolver()->0], exchange, received),
            (final(self)@, final(pool)@) == old(self)@.after_exchange(
                old(pool)@,
                exchange,
                rtt,
                now_ns as int,
            ),
    {
        let k: usize = match self.stage {
            Stage::InFlight(k) => k,
            _ => 0,
        };
        assert(pool@.resolvers[k as int].wf());
        let received: Received<T> = query(pool.resolver_mut(k), exchange, rtt, now_ns);
        proof {
            lemma_with_resolver_wf(old(pool)@, k as int, pool@.resolvers[k as int]);
        }
        let ghost recorded = pool@;
        if let Received::Finished(_) = &received {
            pool.release(k);
            pool.leave();
            self.stage = Stage::Settled;
            assert(pool@ =~= old(pool)@.with_resolver(
                k as int,
                released(recorded.resolvers[k as int]),
            ).with_entered(old(pool)@.entered - 1));
        }
        received
    }

    /// Take what asking again over TCP gave for a query whose response was truncated,
    /// `rtt` after it was first sent. The resolver's permit and the query's place are
    /// given back.
    pub fn refetched<T>(
        &mut self,
        pool: &mut ResolverPool,
        partial: Answer<T>,
        full: Option<Answer<T>>,
        rtt: Duration,
        now_ns: u64,
    ) -> (message: T)
        requires
            old(pool)@.wf(),
            old(self)@ is InFlight,
            old(self)@.may_settle(old(pool)@),
        ensures
            final(pool)@.wf(),
            final(self)@ == Stage::Settled,
            message == fuller(partial, full).message,
            final(pool)@ == old(self)@.after_refetch(
                old(pool)@,
                fuller(partial, full).answers > 0,
                rtt,
                now_ns as int,
            ),
    {
        let k: usize = match self.stage {
            Stage::InFlight(k) => k,
            _ => 0,
        };
        assert(pool@.resolvers[k as int].wf());
        let message: T = refetched(pool.resolver_mut(k), partial, full, rtt, now_ns);
        proof {
            lemma_with_resolver_wf(old(pool)@, k as int, pool@.resolvers[k as int]);
        }
        let ghost recorded = pool@;
        pool.release(k);
        pool.leave();
        self.stage = Stage::Settled;
        assert(pool@ =~= old(pool)@.with_resolver(
            k as int,
            released(recorded.resolvers[k as int]),
        ).with_entered(old(pool)@.entered - 1));
        message
    }
}

impl Stage {
    /// Whether the stage fits a pool in which the place that it has is taken.
    pub open spec fn may_step(self, pool: PoolView) -> bool {
        &&& self.fits(pool)
        &&& self.inside() ==> pool.entered > 0
    }

    /// Whether the stage fits a pool in which the place that it has and the permit that
    /// it holds are taken.
    pub open spec fn may_settle(self, pool: PoolView) -> bool {
        &&& self.may_step(pool)
        &&& self.holds() matches Some(k) ==> pool.resolvers[k].in_flight() > 0
    }

    /// The stage and the pool once an exchange with the resolver that this stage holds a
    /// permit of is recorded. Permit and place are given back unless the query is to be
    /// asked again.
    pub open spec fn after_exchange<T>(
        self,
        pool: PoolView,
        exchange: Exchange<T>,
        rtt: Duration,
        now_ns: int,
    ) -> (Stage, PoolView) {
        let k = self.resolver()->0;
        let recorded = after_exchange(pool.resolvers[k], exchange, rtt, now_ns);
        if exchange matches Exchange::Answered(answer) && answer.truncated {
            (self, pool.with_resolver(k, recorded))
        } else {
            (
                Stage::Settled,
                pool.with_resolver(k, released(recorded)).with_entered(pool.entered - 1),
            )
        }
    }

    /// The pool once asking again is recorded, and permit and place are given back.
    pub open spec fn after_refetch(
        self,
        pool: PoolView,
        had_answers: bool,
        rtt: Duration,
        now_ns: int,
    ) -> PoolView {
        let k = self.resolver()->0;
        pool.with_resolver(
            k,
            released(pool.resolvers[k].after_response(rtt, had_answers, now_ns)),
        ).with_entered(pool.entered - 1)
    }

    /// One where this stage has a place under the cap on queries across all resolvers,
    /// and zero where it has none.
    pub open spec fn places(self) -> int {
        if self.inside() {
            1
        } else {
            0
        }
    }

    /// One where this stage holds a permit of the resolver at `i`, and zero where it
    /// does not.
    pub open spec fn permits_of(self, i: int) -> int {
        if self.holds() == Some(i) {
            1
        } else {
            0
        }
    }

    /// One where this stage waits for the resolver at `i` to answer, and zero where it
    /// does not.
    pub open spec fn queries_to(self, i: int) -> int {
        if self is InFlight && self.resolver() == Some(i) {
            1
        } else {
            0
        }
    }
}

/// A resolver with one of its permits given back.
pub open spec fn released(health: HealthView) -> HealthView {
    health.with_free(health.free + 1)
}

/// Whether none of the counters has reached its greatest number.
pub open spec fn countable(counters: Counters) -> bool {
    &&& counters.attempted < u64::MAX
    &&& counters.answered < u64::MAX
    &&& counters.empty < u64::MAX
    &&& counters.timeout < u64::MAX
    &&& counters.error < u64::MAX
}

/// A query holds its resolver's permit from its reservation until it ends: with each
/// step the queries in flight to a resolver change by the permit that the step takes
/// of it, and by nothing else.
pub proof fn law_steps_account_for_permits(
    stage: Stage,
    pool: PoolView,
    limiter: LimiterView,
    now_ns: u64,
    next: Stage,
    next_pool: PoolView,
    next_limiter: LimiterView,
    action: Action,
    i: int,
)
    requires
        pool.wf(),
        stage.fits(pool),
        stage.steps(pool, limiter, now_ns as int, next, next_pool, next_limiter, action),
        0 <= i < pool.resolvers.len(),
    ensures
        next_pool.resolvers[i].in_flight() - pool.resolvers[i].in_flight() == next.permits_of(i)
            - stage.permits_of(i),
{
    if stage is Reserve {
        let outcome = choose|outcome: Reserve|
            {
                &&& #[trigger] pool.passes(now_ns as int, outcome, next_pool)
                &&& Stage::reserves(pool, now_ns as int, outcome, next, action)
            };
        if let Reserve::Reserved(k) = outcome {
            law_a_reservation_is_within_the_cap(pool, now_ns, k, next_pool);
            assert(i != k ==> next_pool.resolvers[i] == pool.resolvers[i]);
        }
    }
}

/// A permit goes back when the query that holds it ends, and not before: with what
/// comes of the query, the queries in flight to a resolver change by the permit that
/// is given back to it, and by nothing else.
pub proof fn law_endings_account_for_permits<T>(
    stage: Stage,
    pool: PoolView,
    exchange: Exchange<T>,
    had_answers: bool,
    rtt: Duration,
    now_ns: u64,
    i: int,
)
    requires
        pool.wf(),
        stage is InFlight,
        stage.may_settle(pool),
        0 <= i < pool.resolvers.len(),
    ensures
        ({
            let (next, next_pool) = stage.after_exchange(pool, exchange, rtt, now_ns as int);
            next_pool.resolvers[i].in_flight() - pool.resolvers[i].in_flight()
                == next.permits_of(i) - stage.permits_of(i)
        }),
        stage.after_refetch(pool, had_answers, rtt, now_ns as int).resolvers[i].in_flight()
            - pool.resolvers[i].in_flight() == Stage::Settled.permits_of(i) - stage.permits_of(i),
{
}

/// The permits that `stages` hold of the resolver at `i`.
pub open spec fn permits_held(stages: Seq<Stage>, i: int) -> int
    decreases stages.len(),
{
    if stages.len() == 0 {
        0
    } else {
        permits_held(stages.drop_last(), i) + stages.last().permits_of(i)
    }
}

/// The places under the cap on queries across all resolvers that `stages` have.
pub open spec fn places_held(stages: Seq<Stage>) -> int
    decreases stages.len(),
{
    if stages.len() == 0 {
        0
    } else {
        places_held(stages.drop_last()) + stages.last().places()
    }
}

/// Whether the permits of `pool` and the places under its cap are those that `stages`
/// hold, no more and no fewer.
pub open spec fn accounted(pool: PoolView, stages: Seq<Stage>) -> bool {
    &&& pool.entered == places_held(stages)
    &&& forall|i: int|
        0 <= i < pool.resolvers.len() ==> (#[trigger] pool.resolvers[i]).in_flight()
            == permits_held(stages, i)
    &&& forall|d: int| 0 <= d < stages.len() ==> (#[trigger] stages[d]).fits(pool)
}

/// When one stage is replaced, the permits held change by its own.
proof fn lemma_permits_held_update(stages: Seq<Stage>, d: int, next: Stage, i: int)
    requires
        0 <= d < stages.len(),
    ensures
        permits_held(stages.update(d, next), i) == permits_held(stages, i) - stages[d].permits_of(i)
            + next.permits_of(i),
        places_held(stages.update(d, next)) == places_held(stages) - stages[d].places()
            + next.places(),
    decreases stages.len(),
{
    let updated = stages.update(d, next);
    if d == stages.len() - 1 {
        assert(updated.drop_last() =~= stages.drop_last());
    } else {
        lemma_permits_held_update(stages.drop_last(), d, next, i);
        assert(updated.drop_last() =~= stages.drop_last().update(d, next));
    }
}

/// A stage that holds a permit, and one that has a place, counts for at least one.
proof fn lemma_permits_held_at_least(stages: Seq<Stage>, d: int, i: int)
    requires
        0 <= d < stages.len(),
    ensures
        permits_held(stages, i) >= stages[d].permits_of(i),
        permits_held(stages, i) >= 0,
        places_held(stages) >= stages[d].places(),
        places_held(stages) >= 0,
    decreases stages.len(),
{
    let front = stages.drop_last();
    if d < stages.len() - 1 {
        lemma_permits_held_at_least(front, d, i);
    } else if front.len() > 0 {
        lemma_permits_held_at_least(front, 0, i);
    } else {
        assert(permits_held(front, i) == 0);
        assert(places_held(front) == 0);
    }
}

/// Queries that have just been taken up hold no permit and have no place, so a pool with
/// all its permits to give and none under way is accounted for.
pub proof fn law_a_fresh_pool_is_accounted_for(pool: PoolView, stages: Seq<Stage>)
    requires
        forall|i: int|
            0 <= i < pool.resolvers.len() ==> (#[trigger] pool.resolvers[i]).in_flight() == 0,
        pool.entered == 0,
        forall|d: int| 0 <= d < stages.len() ==> stages[d] == Stage::Pace,
    ensures
        accounted(pool, stages),
    decreases stages.len(),
{
    if stages.len() > 0 {
        law_a_fresh_pool_is_accounted_for(pool, stages.drop_last());
        assert forall|i: int| 0 <= i < pool.resolvers.len() implies (
        #[trigger] pool.resolvers[i]).in_flight() == permits_held(stages, i) by {
            assert(pool.resolvers[i].in_flight() == permits_held(stages.drop_last(), i));
        }
    }
}

/// However many queries are under way, a step of any of them finds what it has taken,
/// and keeps permits and places accounted for.
pub proof fn law_steps_keep_the_account(
    stages: Seq<Stage>,
    d: int,
    pool: PoolView,
    limiter: LimiterView,
    now_ns: u64,
    next: Stage,
    next_pool: PoolView,
    next_limiter: LimiterView,
    action: Action,
)
    requires
        pool.wf(),
        accounted(pool, stages),
        0 <= d < stages.len(),
        stages[d].steps(pool, limiter, now_ns as int, next, next_pool, next_limiter, action),
    ensures
        stages[d].may_step(pool),
        accounted(next_pool, stages.update(d, next)),
{
    let updated = stages.update(d, next);
    assert(stages[d].fits(pool));
    lemma_permits_held_at_least(stages, d, 0);
    lemma_permits_held_update(stages, d, next, 0);
    if stages[d] is Reserve {
        let outcome = choose|outcome: Reserve|
            {
                &&& #[trigger] pool.passes(now_ns as int, outcome, next_pool)
                &&& Stage::reserves(pool, now_ns as int, outcome, next, action)
            };
        law_a_pass_stays_within_the_pool(pool, now_ns, outcome, next_pool);
    }
    assert(next.fits(next_pool) && next_pool.resolvers.len() == pool.resolvers.len());
    assert forall|i: int| 0 <= i < next_pool.resolvers.len() implies (
    #[trigger] next_pool.resolvers[i]).in_flight() == permits_held(updated, i) by {
        assert(pool.resolvers[i].in_flight() == permits_held(stages, i));
        law_steps_account_for_permits(
            stages[d],
            pool,
            limiter,
            now_ns,
            next,
            next_pool,
            next_limiter,
            action,
            i,
        );
        lemma_permits_held_update(stages, d, next, i);
    }
    assert forall|e: int| 0 <= e < updated.len() implies (#[trigger] updated[e]).fits(
        next_pool,
    ) by {
        assert(stages[e].fits(pool));
    }
}

/// However many queries are under way, what comes of any of them finds what it has taken,
/// and keeps permits and places accounted for.
pub proof fn law_endings_keep_the_account<T>(
    stages: Seq<Stage>,
    d: int,
    pool: PoolView,
    exchange: Exchange<T>,
    had_answers: bool,
    rtt: Duration,
    now_ns: u64,
)
    requires
        pool.wf(),
        accounted(pool, stages),
        0 <= d < stages.len(),
        stages[d] is InFlight,
    ensures
        stages[d].may_settle(pool),
        ({
            let (next, next_pool) = stages[d].after_exchange(pool, exchange, rtt, now_ns as int);
            accounted(next_pool, stages.update(d, next))
        }),
        accounted(
            stages[d].after_refetch(pool, had_answers, rtt, now_ns as int),
            stages.update(d, Stage::Settled),
        ),
{
    let stage = stages[d];
    let k = stage.resolver()->0;
    assert(stage.fits(pool));
    lemma_permits_held_at_least(stages, d, k);
    assert(pool.resolvers[k].in_flight() == permits_held(stages, k));
    let (next, next_pool) = stage.after_exchange(pool, exchange, rtt, now_ns as int);
    let refetched_pool = stage.after_refetch(pool, had_answers, rtt, now_ns as int);
    let updated = stages.update(d, next);
    let settled = stages.update(d, Stage::Settled);
    lemma_permits_held_update(stages, d, next, k);
    lemma_permits_held_update(stages, d, Stage::Settled, k);
    assert forall|i: int| 0 <= i < pool.resolvers.len() implies (
    #[trigger] next_pool.resolvers[i]).in_flight() == permits_held(updated, i) by {
        assert(pool.resolvers[i].in_flight() == permits_held(stages, i));
        law_endings_account_for_permits(stage, pool, exchange, had_answers, rtt, now_ns, i);
        lemma_permits_held_update(stages, d, next, i);
    }
    assert forall|i: int| 0 <= i < pool.resolvers.len() implies (
    #[trigger] refetched_pool.resolvers[i]).in_flight() == permits_held(settled, i) by {
        assert(pool.resolvers[i].in_flight() == permits_held(stages, i));
        law_endings_account_for_permits(stage, pool, exchange, had_answers, rtt, now_ns, i);
        lemma_permits_held_update(stages, d, Stage::Settled, i);
    }
    assert forall|e: int| 0 <= e < updated.len() implies (#[trigger] updated[e]).fits(
        next_pool,
    ) by {
        assert(stages[e].fits(pool));
    }
    assert forall|e: int| 0 <= e < settled.len() implies (#[trigger] settled[e]).fits(
        refetched_pool,
    ) by {
        assert(stages[e].fits(pool));
    }
}

/// The queries in flight to the first `n` resolvers of `pool`.
pub open spec fn total_in_flight(pool: PoolView, n: nat) -> int
    decreases n,
{
    if n == 0 {
        0
    } else {
        total_in_flight(pool, (n - 1) as nat) + pool.resolvers[n - 1].in_flight()
    }
}

/// The permits that `stages` hold of the first `n` resolvers.
spec fn total_held(stages: Seq<Stage>, n: nat) -> int
    decreases n,
{
    if n == 0 {
        0
    } else {
        total_held(stages, (n - 1) as nat) + permits_held(stages, n - 1)
    }
}

/// One more stage holds at most one more permit.
proof fn lemma_total_held_step(stages: Seq<Stage>, n: nat)
    requires
        stages.len() > 0,
    ensures
        total_held(stages, n) == total_held(stages.drop_last(), n) + (
        if stages.last().holds() matches Some(k) && 0 <= k < n {
            1int
        } else {
            0int
        }),
    decreases n,
{
    if n > 0 {
        lemma_total_held_step(stages, (n - 1) as nat);
    }
}

/// No more permits are held than there are places: each query has its place before it
/// holds a permit.
proof fn lemma_total_held_within_places(stages: Seq<Stage>, n: nat)
    ensures
        total_held(stages, n) <= places_held(stages),
    decreases stages.len(), n,
{
    if stages.len() > 0 {
        lemma_total_held_within_places(stages.drop_last(), n);
        lemma_total_held_step(stages, n);
    } else if n > 0 {
        lemma_total_held_within_places(stages, (n - 1) as nat);
        assert(permits_held(stages, n - 1) == 0);
    }
}

/// In an accounted pool the queries in flight are the permits held.
proof fn lemma_total_in_flight(pool: PoolView, stages: Seq<Stage>, n: nat)
    requires
        accounted(pool, stages),
        n <= pool.resolvers.len(),
    ensures
        total_in_flight(pool, n) == total_held(stages, n),
    decreases n,
{
    if n > 0 {
        lemma_total_in_flight(pool, stages, (n - 1) as nat);
        assert(pool.resolvers[n - 1].in_flight() == permits_held(stages, n - 1));
    }
}

/// The cap on queries in flight across all resolvers is kept: however many queries are
/// taken up, however many workers hold them and whatever becomes of them, the queries in
/// flight to all resolvers together are never more than the pool's capacity, which is
/// the configured `max_concurrency`.
pub proof fn law_in_flight_never_exceeds_max_concurrency(pool: PoolView, stages: Seq<Stage>)
    requires
        pool.wf(),
        accounted(pool, stages),
    ensures
        total_in_flight(pool, pool.resolvers.len()) <= pool.entered <= pool.capacity,
{
    lemma_total_in_flight(pool, stages, pool.resolvers.len());
    lemma_total_held_within_places(stages, pool.resolvers.len());
}

/// Steps, and what comes of queries, leave the cap as it was configured.
pub proof fn law_the_cap_is_fixed<T>(
    stage: Stage,
    pool: PoolView,
    limiter: LimiterView,
    now_ns: u64,
    next: Stage,
    next_pool: PoolView,
    next_limiter: LimiterView,
    action: Action,
    exchange: Exchange<T>,
    had_answers: bool,
    rtt: Duration,
)
    requires
        pool.wf(),
        stage.fits(pool),
    ensures
        stage.steps(pool, limiter, now_ns as int, next, next_pool, next_limiter, action)
            ==> next_pool.capacity == pool.capacity,
        stage.after_exchange(pool, exchange, rtt, now_ns as int).1.capacity == pool.capacity,
        stage.after_refetch(pool, had_answers, rtt, now_ns as int).capacity == pool.capacity,
{
}

/// Every query that is sent is counted, once: with each step the dispatches of a
/// resolver that no outcome was counted for change by the query that the step sends to
/// it, and by nothing else.
pub proof fn law_steps_account_for_queries(
    stage: Stage,
    pool: PoolView,
    limiter: LimiterView,
    now_ns: u64,
    next: Stage,
    next_pool: PoolView,
    next_limiter: LimiterView,
    action: Action,
    i: int,
)
    requires
        pool.wf(),
        stage.fits(pool),
        stage.steps(pool, limiter, now_ns as int, next, next_pool, next_limiter, action),
        0 <= i < pool.resolvers.len(),
        countable(pool.resolvers[i].counters),
    ensures
        next_pool.resolvers[i].counters.unsettled() - pool.resolvers[i].counters.unsettled()
            == next.queries_to(i) - stage.queries_to(i),
{
    if stage is Reserve {
        let outcome = choose|outcome: Reserve|
            {
                &&& #[trigger] pool.passes(now_ns as int, outcome, next_pool)
                &&& Stage::reserves(pool, now_ns as int, outcome, next, action)
            };
        if let Reserve::Reserved(k) = outcome {
            law_a_reservation_is_within_the_cap(pool, now_ns, k, next_pool);
            assert(i != k ==> next_pool.resolvers[i] == pool.resolvers[i]);
        }
    }
}

/// Every query that was sent has one outcome: an exchange that ends it counts one
/// outcome, a truncated response counts none, and asking again then counts one.
pub proof fn law_every_query_has_one_outcome<T>(
    health: HealthView,
    exchange: Exchange<T>,
    partial: Answer<T>,
    full: Option<Answer<T>>,
    rtt: Duration,
    now_ns: u64,
)
    requires
        health.wf(),
        countable(health.counters),
    ensures
        after_exchange(health, exchange, rtt, now_ns as int).counters.unsettled()
            == health.counters.unsettled() - (if exchange matches Exchange::Answered(answer)
            && answer.truncated {
            0int
        } else {
            1int
        }),
        health.after_response(
            rtt,
            fuller(partial, full).answers > 0,
            now_ns as int,
        ).counters.unsettled() == health.counters.unsettled() - 1,
{
}

/// The resolver `health` once a query has been sent to it and has ended: `exchange` is
/// what came of it, and `full` what asking again over TCP gave where the response was
/// truncated.
pub open spec fn after_query<T>(
    health: HealthView,
    exchange: Exchange<T>,
    full: Option<Answer<T>>,
    rtt: Duration,
    now_ns: int,
) -> HealthView {
    let exchanged = after_exchange(health.after_dispatch(), exchange, rtt, now_ns);
    match exchange {
        Exchange::Answered(partial) if partial.truncated => exchanged.after_response(
            rtt,
            fuller(partial, full).answers > 0,
            now_ns,
        ),
        _ => exchanged,
    }
}

/// The counters of a resolver account for a query from end to end: one attempt, and one
/// outcome, which is `answered` for a response with answers, `empty` for one without,
/// `timeout` where the resolver did not answer in time and `error` for any other
/// failure, a failed connection included. So where `attempted` equals `answered + empty
/// + timeout + error` before the query, it does so after it. A count of attempts that
/// has reached its greatest number is left out.
pub proof fn law_a_query_raises_one_counter<T>(
    health: HealthView,
    exchange: Exchange<T>,
    full: Option<Answer<T>>,
    rtt: Duration,
    now_ns: u64,
)
    requires
        health.wf(),
        health.counters.unsettled() == 0,
        health.counters.attempted < u64::MAX,
    ensures
        ({
            let before = health.counters;
            let after = after_query(health, exchange, full, rtt, now_ns as int).counters;
            &&& after.unsettled() == 0
            &&& after.attempted == before.attempted + 1
            &&& match exchange {
                Exchange::Answered(partial) => {
                    let answer = if partial.truncated {
                        fuller(partial, full)
                    } else {
                        partial
                    };
                    &&& after.answered == before.answered + (if answer.answers > 0 {
                        1int
                    } else {
                        0int
                    })
                    &&& after.empty == before.empty + (if answer.answers > 0 {
                        0int
                    } else {
                        1int
                    })
                    &&& after.timeout == before.timeout
                    &&& after.error == before.error
                },
                _ => {
                    &&& after.answered == before.answered
                    &&& after.empty == before.empty
                    &&& after.timeout == before.timeout + (if lost_in_time(exchange) {
                        1int
                    } else {
                        0int
                    })
                    &&& after.error == before.error + (if lost_in_time(exchange) {
                        0int
                    } else {
                        1int
                    })
                },
            }
        }),
{
}

/// A resolver that is benched or inactive is not sent anything: a query takes a permit
/// of a resolver only where that is active and serves no sentence at the time.
pub proof fn law_only_eligible_resolvers_are_reserved(
    stage: Stage,
    pool: PoolView,
    limiter: LimiterView,
    now_ns: u64,
    next: Stage,
    next_pool: PoolView,
    next_limiter: LimiterView,
    action: Action,
    k: usize,
)
    requires
        pool.wf(),
        stage.fits(pool),
        stage.steps(pool, limiter, now_ns as int, next, next_pool, next_limiter, action),
        stage.holds() is None,
        next.holds() == Some(k as int),
    ensures
        k < pool.resolvers.len(),
        pool.resolvers[k as int].eligible(now_ns as int),
        pool.resolvers[k as int].in_flight() < pool.resolvers[k as int].capacity,
{
    if stage is Reserve {
        law_a_reservation_is_within_the_cap(pool, now_ns, k, next_pool);
    }
}

/// A query goes to the resolver that it holds a permit of: the step that says to send it
/// to the resolver at `k` is taken with the permit of that resolver, leaves the query in
/// flight to it, and counts one more attempt of it and of no other. No other step says
/// to send anything, and none takes the query into flight.
pub proof fn law_a_query_is_sent_to_the_resolver_it_holds(
    stage: Stage,
    pool: PoolView,
    limiter: LimiterView,
    now_ns: u64,
    next: Stage,
    next_pool: PoolView,
    next_limiter: LimiterView,
    action: Action,
)
    requires
        pool.wf(),
        stage.fits(pool),
        stage.steps(pool, limiter, now_ns as int, next, next_pool, next_limiter, action),
    ensures
        action matches Action::Query(k) ==> {
            &&& k < pool.resolvers.len()
            &&& stage == Stage::Send(k)
            &&& next == Stage::InFlight(k)
            &&& next_pool.resolvers.len() == pool.resolvers.len()
            &&& next_pool.resolvers[k as int].in_flight() == pool.resolvers[k as int].in_flight()
            &&& pool.resolvers[k as int].counters.attempted < u64::MAX
                ==> next_pool.resolvers[k as int].counters.attempted
                == pool.resolvers[k as int].counters.attempted + 1
            &&& forall|i: int|
                0 <= i < pool.resolvers.len() && i != k ==> #[trigger] next_pool.resolvers[i]
                    == pool.resolvers[i]
        },
        next matches Stage::InFlight(k) ==> action == Action::Query(k),
{
    if stage is Reserve {
        let outcome = choose|outcome: Reserve|
            {
                &&& #[trigger] pool.passes(now_ns as int, outcome, next_pool)
                &&& Stage::reserves(pool, now_ns as int, outcome, next, action)
            };
        assert(!(action is Query) && !(next is InFlight));
    }
}

/// A query keeps to one resolver: once it has a permit, every step leaves it with the
/// permit of the same resolver, takes it one stage on, and changes no other resolver.
/// Before that, a step takes at most one permit, and it is of the resolver that the
/// query then speaks of.
pub proof fn law_a_query_keeps_to_its_resolver(
    stage: Stage,
    pool: PoolView,
    limiter: LimiterView,
    now_ns: u64,
    next: Stage,
    next_pool: PoolView,
    next_limiter: LimiterView,
    action: Action,
)
    requires
        pool.wf(),
        stage.fits(pool),
        stage.steps(pool, limiter, now_ns as int, next, next_pool, next_limiter, action),
    ensures
        stage matches Stage::PaceResolver(k) ==> next == Stage::Send(k),
        stage matches Stage::Send(k) ==> next == Stage::InFlight(k),
        stage matches Stage::Claim(k) ==> next == Stage::PaceResolver(k) || next == Stage::Reserve,
        next matches Stage::PaceResolver(k) ==> {
            &&& k < pool.resolvers.len()
            &&& next_pool.resolvers[k as int].in_flight() == pool.resolvers[k as int].in_flight()
                + 1
            &&& pool.resolvers[k as int].active
            &&& pool.resolvers[k as int].benched_until_ns <= now_ns
            &&& pool.resolvers[k as int].in_flight() < pool.resolvers[k as int].capacity
            &&& forall|i: int|
                0 <= i < pool.resolvers.len() && i != k ==> #[trigger] next_pool.resolvers[i]
                    == pool.resolvers[i]
        },
{
    if stage is Reserve {
        let outcome = choose|outcome: Reserve|
            {
                &&& #[trigger] pool.passes(now_ns as int, outcome, next_pool)
                &&& Stage::reserves(pool, now_ns as int, outcome, next, action)
            };
        if let Reserve::Reserved(k) = outcome {
            law_a_reservation_is_within_the_cap(pool, now_ns, k, next_pool);
        }
    }
}

/// How long a worker sleeps before the next step.
pub open spec fn slept(action: Action) -> int {
    match action {
        Action::Sleep(d) => duration_nanos(d) as int,
        _ => 0,
    }
}

/// A query waits for its slot: under the global rate, and then under its resolver's, the
/// slot is the limiter's cursor, or now where that has passed. A worker that is told to
/// sleep goes on exactly at the slot, and one that is not does so less than a millisecond
/// before it. The slot is used up: the next one is an interval later.
pub proof fn law_a_query_goes_on_at_its_slot(
    stage: Stage,
    pool: PoolView,
    limiter: LimiterView,
    now_ns: u64,
    next: Stage,
    next_pool: PoolView,
    next_limiter: LimiterView,
    action: Action,
)
    requires
        pool.wf(),
        limiter.wf(),
        stage.fits(pool),
        stage is Pace || stage is PaceResolver,
        stage.steps(pool, limiter, now_ns as int, next, next_pool, next_limiter, action),
    ensures
        ({
            let (paced, paced_next) = match stage {
                Stage::PaceResolver(k) => (
                    pool.resolvers[k as int].limiter,
                    next_pool.resolvers[k as int].limiter,
                ),
                _ => (limiter, next_limiter),
            };
            let slot = if paced.next_ns >= now_ns {
                paced.next_ns
            } else {
                now_ns as int
            };
            &&& action is Sleep || action is Proceed
            &&& action is Sleep ==> now_ns + slept(action) == slot
            &&& action is Proceed <==> slot - now_ns < 1_000_000
            &&& slot - 1_000_000 < now_ns + slept(action) <= slot
            &&& paced_next.interval_ns == paced.interval_ns
            &&& slot + paced.interval_ns <= u64::MAX ==> paced_next.next_ns == slot
                + paced.interval_ns
            &&& slot + paced.interval_ns > u64::MAX ==> paced_next.next_ns == u64::MAX
        }),
        stage is Pace ==> next == Stage::Enter && next_pool == pool,
        stage is PaceResolver ==> next_limiter == limiter,
{
    if let Stage::PaceResolver(k) = stage {
        assert(pool.resolvers[k as int].wf());
    }
}

/// A step in which a query takes its turn under a rate.
pub struct Turn {
    pub stage: Stage,
    pub pool: PoolView,
    pub limiter: LimiterView,
    pub now_ns: u64,
    pub next: Stage,
    pub next_pool: PoolView,
    pub next_limiter: LimiterView,
    pub action: Action,
}

impl Turn {
    /// The limiter whose turn it is: the global one, or that of the resolver at `by`.
    pub open spec fn paced(self, by: Option<usize>) -> LimiterView {
        match by {
            None => self.limiter,
            Some(k) => self.pool.resolvers[k as int].limiter,
        }
    }

    /// That limiter after the step.
    pub open spec fn left(self, by: Option<usize>) -> LimiterView {
        match by {
            None => self.next_limiter,
            Some(k) => self.next_pool.resolvers[k as int].limiter,
        }
    }

    /// Whether the step is one in which a query takes its turn there.
    pub open spec fn is_taken(self, by: Option<usize>) -> bool {
        &&& self.stage == (match by {
            None => Stage::Pace,
            Some(k) => Stage::PaceResolver(k),
        })
        &&& self.pool.wf()
        &&& self.limiter.wf()
        &&& self.stage.fits(self.pool)
        &&& self.stage.steps(
            self.pool,
            self.limiter,
            self.now_ns as int,
            self.next,
            self.next_pool,
            self.next_limiter,
            self.action,
        )
    }

    /// When the query goes on, if its worker sleeps as it is told to.
    pub open spec fn goes_on_ns(self) -> int {
        self.now_ns + slept(self.action)
    }
}

/// Whether queries take these turns one after the other: each finds the limiter as the
/// one before left it, whatever else happened meanwhile.
pub open spec fn in_turn(turns: Seq<Turn>, by: Option<usize>) -> bool {
    &&& forall|i: int| 0 <= i < turns.len() ==> (#[trigger] turns[i]).is_taken(by)
    &&& forall|i: int|
        0 < i < turns.len() ==> (#[trigger] turns[i]).paced(by) == turns[i - 1].left(by)
}

/// A rate limit holds however many queries wait, for the global rate as for that of each
/// resolver: of queries that take their turns in a row, whenever they arrive, one that is
/// `n` turns later goes on at least `n` intervals later, but for less than a millisecond.
/// The end of the clock is the one exception.
pub proof fn law_turns_keep_to_the_rate_limit(
    turns: Seq<Turn>,
    by: Option<usize>,
    i: int,
    j: int,
)
    requires
        in_turn(turns, by),
        0 <= i <= j < turns.len(),
        turns[j].paced(by).next_ns < u64::MAX,
    ensures
        turns[j].goes_on_ns() - turns[i].goes_on_ns() > (j - i) * turns[i].paced(by).interval_ns
            - 1_000_000,
{
    let d = turns[i].paced(by).interval_ns;
    lemma_turn(turns, by, i);
    lemma_turn(turns, by, j);
    if i < j {
        lemma_cursor_climbs(turns, by, i, j);
    } else {
        assert((j - i) * d == 0) by (nonlinear_arith)
            requires
                i == j,
        ;
    }
}

/// What one turn does.
proof fn lemma_turn(turns: Seq<Turn>, by: Option<usize>, i: int)
    requires
        in_turn(turns, by),
        0 <= i < turns.len(),
    ensures
        ({
            let turn = turns[i];
            let paced = turn.paced(by);
            let slot = if paced.next_ns >= turn.now_ns {
                paced.next_ns
            } else {
                turn.now_ns as int
            };
            &&& paced.wf()
            &&& slot - 1_000_000 < turn.goes_on_ns() <= slot
            &&& turn.left(by).interval_ns == paced.interval_ns
            &&& turn.left(by).next_ns == (if slot + paced.interval_ns <= u64::MAX {
                slot + paced.interval_ns
            } else {
                u64::MAX as int
            })
        }),
{
    let turn = turns[i];
    assert(turn.is_taken(by));
    if let Some(k) = by {
        assert(turn.pool.resolvers[k as int].wf());
    }
    law_a_query_goes_on_at_its_slot(
        turn.stage,
        turn.pool,
        turn.limiter,
        turn.now_ns,
        turn.next,
        turn.next_pool,
        turn.next_limiter,
        turn.action,
    );
}

/// Turns move the cursor on by an interval each, at least, from where a query goes on.
proof fn lemma_cursor_climbs(turns: Seq<Turn>, by: Option<usize>, i: int, j: int)
    requires
        in_turn(turns, by),
        0 <= i < j < turns.len(),
        turns[j].paced(by).next_ns < u64::MAX,
    ensures
        turns[j].paced(by).next_ns >= turns[i].goes_on_ns() + (j - i)
            * turns[i].paced(by).interval_ns,
        turns[j].paced(by).interval_ns == turns[i].paced(by).interval_ns,
    decreases j - i,
{
    let d = turns[i].paced(by).interval_ns;
    lemma_turn(turns, by, j - 1);
    lemma_turn(turns, by, i);
    assert(turns[j].paced(by) == turns[j - 1].left(by));
    assert((j - i) * d == (j - 1 - i) * d + d) by (nonlinear_arith);
    if i < j - 1 {
        lemma_cursor_climbs(turns, by, i, j - 1);
    } else {
        assert((j - 1 - i) * d == 0) by (nonlinear_arith)
            requires
                j - 1 == i,
        ;
    }
}

/// The places under the cap on queries across all resolvers are given out until there
/// are none: a query that waits for one gets it where fewer than the cap are taken, and
/// is told to wait where all are. Nothing is taken of any resolver for it.
pub proof fn law_a_place_is_given_while_there_is_one(
    pool: PoolView,
    limiter: LimiterView,
    now_ns: u64,
    next: Stage,
    next_pool: PoolView,
    next_limiter: LimiterView,
    action: Action,
)
    requires
        pool.wf(),
        Stage::Enter.steps(pool, limiter, now_ns as int, next, next_pool, next_limiter, action),
    ensures
        next_pool.resolvers == pool.resolvers,
        next_pool.cursor == pool.cursor,
        next_limiter == limiter,
        action is AwaitPlace <==> pool.entered == pool.capacity,
        action is AwaitPlace ==> next == Stage::Enter && next_pool.entered == pool.entered,
        action !is AwaitPlace ==> action is Proceed && next == Stage::Reserve && next_pool.entered
            == pool.entered + 1,
{
}

/// What a query that needs a resolver finds, and what it is told. It gets a resolver
/// wherever one is active, serves no sentence and has a permit to give. It is refused
/// only where no resolver is active, and its place is given back. Where all active ones
/// serve sentences, it looks again exactly when the first of them lapses. Otherwise it
/// waits for a permit of a resolver that serves no sentence and has none to give.
pub proof fn law_a_query_gets_a_resolver_where_there_is_one(
    pool: PoolView,
    limiter: LimiterView,
    now_ns: u64,
    next: Stage,
    next_pool: PoolView,
    next_limiter: LimiterView,
    action: Action,
)
    requires
        pool.wf(),
        Stage::Reserve.steps(pool, limiter, now_ns as int, next, next_pool, next_limiter, action),
    ensures
        next_limiter == limiter,
        next is PaceResolver <==> exists|i: int|
            0 <= i < pool.resolvers.len() && (#[trigger] pool.resolvers[i]).active
                && pool.resolvers[i].benched_until_ns <= now_ns && pool.resolvers[i].in_flight()
                < pool.resolvers[i].capacity,
        next is Leave <==> forall|i: int|
            0 <= i < pool.resolvers.len() ==> !(#[trigger] pool.resolvers[i]).active,
        next is PaceResolver || next is Leave ==> action is Proceed,
        next is Reserve ==> {
            &&& action matches Action::Sleep(d)
            &&& exists|i: int|
                0 <= i < pool.resolvers.len() && (#[trigger] pool.resolvers[i]).active
                    && pool.resolvers[i].benched_until_ns == now_ns + slept(action)
            &&& forall|i: int|
                0 <= i < pool.resolvers.len() && (#[trigger] pool.resolvers[i]).active
                    ==> pool.resolvers[i].benched_until_ns >= now_ns + slept(action)
            &&& slept(action) > 0
        },
        next is PaceResolver || next is Leave || next is Reserve || next is Claim,
        next matches Stage::Claim(k) ==> {
            &&& action == Action::AwaitPermit(k)
            &&& k < pool.resolvers.len()
            &&& pool.resolvers[k as int].active
            &&& pool.resolvers[k as int].benched_until_ns <= now_ns
            &&& pool.resolvers[k as int].in_flight() == pool.resolvers[k as int].capacity
        },
        !(next is PaceResolver) ==> next_pool.resolvers == pool.resolvers,
        next_pool.entered == pool.entered,
        next_pool.capacity == pool.capacity,
{
    let outcome = choose|outcome: Reserve|
        {
            &&& #[trigger] pool.passes(now_ns as int, outcome, next_pool)
            &&& Stage::reserves(pool, now_ns as int, outcome, next, action)
        };
    law_a_pass_finds_what_there_is(pool, now_ns, outcome, next_pool);
    if outcome is AllBenched {
        let until_ns = choose|until_ns: int|
            {
                &&& #[trigger] pool.is_first_release(until_ns)
                &&& if until_ns > now_ns {
                    action matches Action::Sleep(d) && duration_nanos(d) == until_ns - now_ns
                } else {
                    action is Yield
                }
            };
        let i = choose|i: int|
            0 <= i < pool.resolvers.len() && (#[trigger] pool.resolvers[i]).active
                && pool.resolvers[i].benched_until_ns == until_ns;
        assert(pool.resolvers[i].benched_until_ns > now_ns);
    }
}

/// A refusal gives the query's place back and changes no resolver; it is the only way in
/// which a query ends without having been sent.
pub proof fn law_a_refusal_gives_the_place_back(
    stage: Stage,
    pool: PoolView,
    limiter: LimiterView,
    now_ns: u64,
    next: Stage,
    next_pool: PoolView,
    next_limiter: LimiterView,
    action: Action,
)
    requires
        pool.wf(),
        stage.fits(pool),
        stage.steps(pool, limiter, now_ns as int, next, next_pool, next_limiter, action),
    ensures
        stage is Leave <==> action is Refuse,
        action is Refuse <==> next == Stage::Settled,
        action is Refuse ==> {
            &&& next_pool.entered == pool.entered - 1
            &&& next_pool.resolvers == pool.resolvers
            &&& next_limiter == limiter
        },
{
    if stage is Reserve {
        let outcome = choose|outcome: Reserve|
            {
                &&& #[trigger] pool.passes(now_ns as int, outcome, next_pool)
                &&& Stage::reserves(pool, now_ns as int, outcome, next, action)
            };
        assert(!(action is Refuse));
    }
}

/// A query that waited for a permit gets it where its resolver is active, serves no
/// sentence and has one to give, and looks for another resolver otherwise.
pub proof fn law_a_waiter_claims_or_looks_elsewhere(
    k: usize,
    pool: PoolView,
    limiter: LimiterView,
    now_ns: u64,
    next: Stage,
    next_pool: PoolView,
    next_limiter: LimiterView,
    action: Action,
)
    requires
        pool.wf(),
        k < pool.resolvers.len(),
        Stage::Claim(k).steps(pool, limiter, now_ns as int, next, next_pool, next_limiter, action),
    ensures
        action is Proceed,
        next == Stage::PaceResolver(k) <==> pool.resolvers[k as int].active
            && pool.resolvers[k as int].benched_until_ns <= now_ns
            && pool.resolvers[k as int].in_flight() < pool.resolvers[k as int].capacity,
        next == Stage::PaceResolver(k) || next == Stage::Reserve,
        next == Stage::Reserve ==> next_pool == pool,
{
    assert(pool.resolvers[k as int].wf());
}

/// A query, the pool and the global limiter between two steps.
pub struct Moment {
    pub stage: Stage,
    pub pool: PoolView,
    pub limiter: LimiterView,
}

/// Whether the step at `i`, taken at its time and answered with its action, leads from
/// the moment at `i` to the next one.
pub open spec fn leads_on(
    moments: Seq<Moment>,
    times: Seq<u64>,
    actions: Seq<Action>,
    i: int,
) -> bool {
    moments[i].stage.steps(
        moments[i].pool,
        moments[i].limiter,
        times[i] as int,
        moments[i + 1].stage,
        moments[i + 1].pool,
        moments[i + 1].limiter,
        actions[i],
    )
}

/// Whether stepping a query from when it is taken up until it is to be sent, at these
/// times, goes through these moments and actions.
pub open spec fn is_sending(
    moments: Seq<Moment>,
    times: Seq<u64>,
    actions: Seq<Action>,
    k: usize,
) -> bool {
    &&& times.len() > 0
    &&& moments.len() == times.len() + 1
    &&& actions.len() == times.len()
    &&& forall|i: int| 0 <= i < times.len() ==> #[trigger] leads_on(moments, times, actions, i)
    &&& moments[0].stage == Stage::Pace
    &&& actions.last() == Action::Query(k)
}

/// Whether a query taken up over `pool` at `since_ns` or later is sent to the resolver at
/// `k`, with `next` as the pool that it leaves.
pub open spec fn is_sent(pool: PoolView, since_ns: u64, k: usize, next: PoolView) -> bool {
    exists|moments: Seq<Moment>, times: Seq<u64>, actions: Seq<Action>|
        {
            &&& #[trigger] is_sending(moments, times, actions, k)
            &&& moments[0].pool == pool
            &&& moments.last().pool == next
            &&& forall|i: int| 0 <= i < times.len() ==> times[i] >= since_ns
        }
}

/// A query taken up while there is a place, and while the resolver that is next in
/// rotation is active, serves no sentence and has a permit to give, is sent to that
/// resolver. One attempt of it is counted and one of its permits is taken; no other
/// resolver changes, and the rotation moves on by one.
pub proof fn law_the_next_in_rotation_is_sent_the_query(
    pool: PoolView,
    since_ns: u64,
    k: usize,
    next: PoolView,
)
    requires
        pool.wf(),
        pool.entered < pool.capacity,
        pool.resolvers.len() > 0,
        ({
            let first = pool.resolvers[pool.cursor as int % pool.resolvers.len() as int];
            &&& first.active
            &&& first.benched_until_ns <= since_ns
            &&& first.in_flight() < first.capacity
            &&& first.counters.attempted < u64::MAX
        }),
        pool.cursor < u64::MAX,
        is_sent(pool, since_ns, k, next),
    ensures
        k == pool.cursor as int % pool.resolvers.len() as int,
        k < pool.resolvers.len(),
        next.wf(),
        next.cursor == pool.cursor + 1,
        next.entered == pool.entered + 1,
        next.capacity == pool.capacity,
        next.resolvers.len() == pool.resolvers.len(),
        next.resolvers[k as int].in_flight() == pool.resolvers[k as int].in_flight() + 1,
        next.resolvers[k as int].counters.attempted == pool.resolvers[k as int].counters.attempted
            + 1,
        forall|i: int|
            0 <= i < pool.resolvers.len() && i != k ==> #[trigger] next.resolvers[i]
                == pool.resolvers[i],
{
    let (moments, times, actions) = choose|
        moments: Seq<Moment>,
        times: Seq<u64>,
        actions: Seq<Action>,
    |
        {
            &&& #[trigger] is_sending(moments, times, actions, k)
            &&& moments[0].pool == pool
            &&& moments.last().pool == next
            &&& forall|i: int| 0 <= i < times.len() ==> times[i] >= since_ns
        };
    let n = pool.resolvers.len() as int;
    let first = pool.cursor as int % n;
    assert(leads_on(moments, times, actions, 0));
    assert(times.len() > 1);
    assert(leads_on(moments, times, actions, 1));
    let entered = moments[2].pool;
    assert(entered == pool.with_entered(pool.entered + 1));
    assert(entered.wf()) by {
        assert forall|i: int| 0 <= i < entered.resolvers.len() implies (
        #[trigger] entered.resolvers[i]).wf() by {
            assert(pool.resolvers[i].wf());
        }
    }
    assert(times.len() > 2);
    assert(leads_on(moments, times, actions, 2));
    let reserved = moments[3].pool;
    let now_ns = times[2];
    let outcome = choose|outcome: Reserve|
        {
            &&& #[trigger] entered.passes(now_ns as int, outcome, reserved)
            &&& Stage::reserves(entered, now_ns as int, outcome, moments[3].stage, actions[2])
        };
    law_a_pass_finds_what_there_is(entered, now_ns, outcome, reserved);
    assert(entered.resolvers[first].active);
    assert(outcome is Reserved);
    let l = outcome->Reserved_0;
    law_a_reservation_is_within_the_cap(entered, now_ns, l, reserved);
    let step = law_a_pass_takes_the_first_in_rotation(entered, now_ns, l, reserved);
    if step > 0 {
        assert(entered.visited(0) == first);
        assert(false);
    }
    assert(l == first);
    assert(times.len() > 3);
    assert(leads_on(moments, times, actions, 3));
    assert(times.len() > 4);
    assert(leads_on(moments, times, actions, 4));
    if times.len() > 5 {
        assert(leads_on(moments, times, actions, 5));
        assert(false);
    }
    assert(moments.last() == moments[5]);
    let paced = moments[4].pool;
    assert(reserved.resolvers[first].wf());
    lemma_with_resolver_wf(reserved, first, paced.resolvers[first]);
    lemma_with_resolver_wf(paced, first, next.resolvers[first]);
    assert forall|i: int| 0 <= i < n && i != k implies #[trigger] next.resolvers[i]
        == pool.resolvers[i] by {
        assert(reserved.resolvers[i] == entered.resolvers[i]);
    }
}

/// Whether queries are sent one after the other, none of them ending meanwhile: the one
/// at `i` over the pool at `i`, to the resolver at the position that is `targets[i]`.
pub open spec fn sent_in_a_row(
    pools: Seq<PoolView>,
    since_ns: u64,
    targets: Seq<usize>,
) -> bool {
    &&& pools.len() == targets.len() + 1
    &&& forall|i: int|
        0 <= i < targets.len() ==> is_sent(
            pools[i],
            since_ns,
            #[trigger] targets[i],
            pools[i + 1],
        )
}

/// Whether a resolver may be sent a query at `since_ns` or later.
pub open spec fn is_ready(health: HealthView, since_ns: u64) -> bool {
    &&& health.active
    &&& health.benched_until_ns <= since_ns
    &&& health.in_flight() < health.capacity
    &&& health.counters.attempted < u64::MAX
}

/// The first queries over a pool that is ready, as many as there are resolvers at most,
/// go to one resolver each, in rotation: the one at `i` goes to the resolver `i` places
/// after the cursor, and no two go to the same.
pub proof fn law_a_ready_pool_is_sent_one_query_each(
    pools: Seq<PoolView>,
    since_ns: u64,
    targets: Seq<usize>,
    i: int,
    j: int,
)
    requires
        sent_in_a_row(pools, since_ns, targets),
        pools[0].wf(),
        forall|r: int|
            0 <= r < pools[0].resolvers.len() ==> is_ready(
                #[trigger] pools[0].resolvers[r],
                since_ns,
            ),
        targets.len() <= pools[0].resolvers.len(),
        pools[0].entered + targets.len() <= pools[0].capacity,
        pools[0].cursor + targets.len() <= u64::MAX,
        0 <= i < j < targets.len(),
    ensures
        targets[i] == (pools[0].cursor + i) % (pools[0].resolvers.len() as int),
        targets[j] == (pools[0].cursor + j) % (pools[0].resolvers.len() as int),
        targets[i] != targets[j],
{
    lemma_sent_in_rotation(pools, since_ns, targets, i);
    lemma_sent_in_rotation(pools, since_ns, targets, j);
    lemma_rotation_differs(
        pools[0].cursor as int,
        i,
        j,
        pools[0].resolvers.len() as int,
    );
}

/// Less than a round apart, two places in rotation differ.
proof fn lemma_rotation_differs(cursor: int, i: int, j: int, n: int)
    requires
        0 <= i < j < n,
    ensures
        (cursor + i) % n != (cursor + j) % n,
{
    if (cursor + i) % n == (cursor + j) % n {
        let p = (cursor + i) / n;
        let q = (cursor + j) / n;
        lemma_fundamental_div_mod(cursor + i, n);
        lemma_fundamental_div_mod(cursor + j, n);
        assert(j - i == n * (q - p)) by (nonlinear_arith)
            requires
                cursor + i == n * p + (cursor + i) % n,
                cursor + j == n * q + (cursor + j) % n,
                (cursor + i) % n == (cursor + j) % n,
        ;
        assert(false) by (nonlinear_arith)
            requires
                j - i == n * (q - p),
                0 < j - i < n,
        ;
    }
}

/// What the pool at `i` of those holds, and where the query at `i` goes.
proof fn lemma_sent_in_rotation(
    pools: Seq<PoolView>,
    since_ns: u64,
    targets: Seq<usize>,
    i: int,
)
    requires
        sent_in_a_row(pools, since_ns, targets),
        pools[0].wf(),
        forall|r: int|
            0 <= r < pools[0].resolvers.len() ==> is_ready(
                #[trigger] pools[0].resolvers[r],
                since_ns,
            ),
        targets.len() <= pools[0].resolvers.len(),
        pools[0].entered + targets.len() <= pools[0].capacity,
        pools[0].cursor + targets.len() <= u64::MAX,
        0 <= i < targets.len(),
    ensures
        pools[i].wf(),
        pools[i].cursor == pools[0].cursor + i,
        pools[i].entered == pools[0].entered + i,
        pools[i].capacity == pools[0].capacity,
        pools[i].resolvers.len() == pools[0].resolvers.len(),
        forall|r: int|
            0 <= r < pools[0].resolvers.len() && (forall|s: int|
                0 <= s < i ==> #[trigger] targets[s] != r) ==> #[trigger] pools[i].resolvers[r]
                == pools[0].resolvers[r],
        targets[i] == (pools[0].cursor + i) % (pools[0].resolvers.len() as int),
    decreases i,
{
    let n = pools[0].resolvers.len() as int;
    let cursor = pools[0].cursor as int;
    if i > 0 {
        let before = pools[i - 1];
        lemma_sent_in_rotation(pools, since_ns, targets, i - 1);
        assert forall|s: int| 0 <= s < i - 1 implies #[trigger] targets[s] != (cursor + (i - 1))
            % n by {
            lemma_sent_in_rotation(pools, since_ns, targets, s);
            lemma_rotation_differs(cursor, s, i - 1, n);
        }
        let r = (cursor + (i - 1)) % n;
        assert(0 <= r < n);
        assert(before.resolvers[r] == pools[0].resolvers[r]);
        assert(is_ready(pools[0].resolvers[r], since_ns));
        assert(is_sent(before, since_ns, targets[i - 1], pools[i]));
        law_the_next_in_rotation_is_sent_the_query(before, since_ns, targets[i - 1], pools[i]);
        assert forall|r: int|
            0 <= r < n && (forall|s: int| 0 <= s < i ==> #[trigger] targets[s] != r) implies
            #[trigger] pools[i].resolvers[r] == pools[0].resolvers[r] by {
            assert(targets[i - 1] != r);
            assert(pools[i].resolvers[r] == before.resolvers[r]);
            assert(before.resolvers[r] == pools[0].resolvers[r]);
        }
    }
    let r = (cursor + i) % n;
    assert(0 <= r < n);
    assert forall|s: int| 0 <= s < i implies #[trigger] targets[s] != r by {
        lemma_sent_in_rotation(pools, since_ns, targets, s);
        lemma_rotation_differs(cursor, s, i, n);
    }
    assert(pools[i].resolvers[r] == pools[0].resolvers[r]);
    assert(is_ready(pools[0].resolvers[r], since_ns));
    assert(is_sent(pools[i], since_ns, targets[i], pools[i + 1]));
    law_the_next_in_rotation_is_sent_the_query(pools[i], since_ns, targets[i], pools[i + 1]);
}

/// The queries that wait for the resolver at `k` to answer.
pub open spec fn queries_in_flight(stages: Seq<Stage>, k: usize) -> int
    decreases stages.len(),
{
    if stages.len() == 0 {
        0
    } else {
        queries_in_flight(stages.drop_last(), k) + (if stages.last() == Stage::InFlight(k) {
            1int
        } else {
            0int
        })
    }
}

/// No resolver waits for more queries at once than its cap allows, however many are under
/// way.
pub proof fn law_no_resolver_has_more_queries_than_its_cap(
    pool: PoolView,
    stages: Seq<Stage>,
    k: usize,
)
    requires
        pool.wf(),
        accounted(pool, stages),
        k < pool.resolvers.len(),
    ensures
        queries_in_flight(stages, k) <= pool.resolvers[k as int].capacity,
{
    lemma_queries_hold_permits(stages, k);
    assert(pool.resolvers[k as int].wf());
    assert(pool.resolvers[k as int].in_flight() == permits_held(stages, k as int));
}

/// Each query in flight holds a permit.
proof fn lemma_queries_hold_permits(stages: Seq<Stage>, k: usize)
    ensures
        queries_in_flight(stages, k) <= permits_held(stages, k as int),
    decreases stages.len(),
{
    if stages.len() > 0 {
        lemma_queries_hold_permits(stages.drop_last(), k);
    }
}

/// What an exchange comes to is what it gave: an answer comes back as it is, a failure to
/// connect is the error that it gave, and any other failure names the resolver that was
/// asked, with its cause or the deadline that passed. Just the failures that are
/// timeouts count as such.
pub proof fn law_an_exchange_comes_to_what_it_gave<T>(
    resolver: Endpoint,
    exchange: Exchange<T>,
    deadline: Duration,
)
    ensures
        exchange_result(resolver, exchange, deadline) is Ok <==> exchange is Answered,
        exchange matches Exchange::Answered(answer) ==> exchange_result(
            resolver,
            exchange,
            deadline,
        ) == Ok::<Answer<T>, BlastDNSError>(answer),
        exchange_result(resolver, exchange, deadline) matches Err(error) ==> match exchange {
            Exchange::NotConnected(cause) => error == cause && !lost_in_time(exchange),
            Exchange::Failed(cause) => {
                &&& error matches BlastDNSError::ResolverRequestFailed { resolver: asked, source }
                &&& asked == resolver
                &&& source == cause
                &&& lost_in_time(exchange) == error.timed_out()
                &&& lost_in_time(exchange) == is_request_timeout(cause)
            },
            Exchange::Elapsed => {
                &&& error matches BlastDNSError::QueryTimedOut { resolver: asked, timeout }
                &&& asked == resolver
                &&& timeout == deadline
                &&& lost_in_time(exchange)
                &&& error.timed_out()
            },
            Exchange::Answered(_) => false,
        },
        exchange is Failed || exchange is Elapsed ==> exchange_result(
            resolver,
            exchange,
            deadline,
        )->Err_0.retryable(),
{
}

/// A query ends with the whole answer: one that was not truncated is delivered as it
/// came; one that was is asked for again, and the full answer is delivered where asking
/// again gave one, the partial one otherwise. Without an answer the query ends with the
/// error of the exchange.
pub proof fn law_a_whole_answer_is_delivered<T>(
    health: HealthView,
    exchange: Exchange<T>,
    received: Received<T>,
    partial: Answer<T>,
    full: Answer<T>,
)
    requires
        is_received(health, exchange, received),
    ensures
        exchange matches Exchange::Answered(answer) ==> (answer.truncated ==> received
            == Received::Refetch(answer)),
        exchange matches Exchange::Answered(answer) ==> (!answer.truncated ==> received
            == Received::Finished(Ok::<T, BlastDNSError>(answer.message))),
        !(exchange is Answered) ==> {
            &&& received matches Received::Finished(Err(error))
            &&& exchange_result(health.resolver, exchange, health.request_timeout) == Err::<
                Answer<T>,
                BlastDNSError,
            >(error)
        },
        fuller(partial, Some(full)) == full,
        fuller(partial, None) == partial,
{
}

/// What comes of a query concerns its resolver alone: the outcome is counted against the
/// resolver that the query was sent to, whose permit comes back with the query's place,
/// and no other resolver changes. A truncated response gives back neither, and counts no
/// outcome yet.
pub proof fn law_an_ending_concerns_its_resolver_alone<T>(
    k: usize,
    pool: PoolView,
    exchange: Exchange<T>,
    had_answers: bool,
    rtt: Duration,
    now_ns: u64,
)
    requires
        pool.wf(),
        Stage::InFlight(k).may_settle(pool),
        countable(pool.resolvers[k as int].counters),
    ensures
        ({
            let (next, after) = Stage::InFlight(k).after_exchange(
                pool,
                exchange,
                rtt,
                now_ns as int,
            );
            let was = pool.resolvers[k as int];
            let is = after.resolvers[k as int];
            let again = exchange matches Exchange::Answered(answer) && answer.truncated;
            &&& k < pool.resolvers.len()
            &&& forall|i: int|
                0 <= i < pool.resolvers.len() && i != k ==> #[trigger] after.resolvers[i]
                    == pool.resolvers[i]
            &&& after.cursor == pool.cursor
            &&& after.capacity == pool.capacity
            &&& again ==> next == Stage::InFlight(k) && after.entered == pool.entered
                && is.in_flight() == was.in_flight() && is.counters.unsettled()
                == was.counters.unsettled()
            &&& !again ==> next == Stage::Settled && after.entered == pool.entered - 1
                && is.in_flight() == was.in_flight() - 1 && is.counters.unsettled()
                == was.counters.unsettled() - 1
            &&& exchange is Answered ==> is.counters.timeout == was.counters.timeout
                && is.counters.error == was.counters.error
            &&& exchange is NotConnected ==> is.counters.error == was.counters.error + 1
            &&& exchange is Elapsed ==> is.counters.timeout == was.counters.timeout + 1
            &&& exchange matches Exchange::Failed(cause) ==> (if is_request_timeout(cause) {
                is.counters.timeout == was.counters.timeout + 1
            } else {
                is.counters.error == was.counters.error + 1
            })
            &&& !again && exchange is Answered ==> (if exchange->Answered_0.answers > 0 {
                is.counters.answered == was.counters.answered + 1
            } else {
                is.counters.empty == was.counters.empty + 1
            }) && is.consecutive_errors == 0
        }),
        ({
            let after = Stage::InFlight(k).after_refetch(pool, had_answers, rtt, now_ns as int);
            let was = pool.resolvers[k as int];
            let is = after.resolvers[k as int];
            &&& forall|i: int|
                0 <= i < pool.resolvers.len() && i != k ==> #[trigger] after.resolvers[i]
                    == pool.resolvers[i]
            &&& after.cursor == pool.cursor
            &&& after.capacity == pool.capacity
            &&& after.entered == pool.entered - 1
            &&& is.in_flight() == was.in_flight() - 1
            &&& is.counters.answered == was.counters.answered + (if had_answers {
                1int
            } else {
                0int
            })
            &&& is.counters.empty == was.counters.empty + (if had_answers {
                0int
            } else {
                1int
            })
        }),
{
}

/// A probe counts those that answered: of probes in two parts, those of either part, and
/// of a single one, itself where it was answered.
pub proof fn law_probes_count_those_that_answered<T>(
    first: Seq<Exchange<T>>,
    second: Seq<Exchange<T>>,
    exchange: Exchange<T>,
)
    ensures
        count_answered(first + second) == count_answered(first) + count_answered(second),
        count_answered(seq![exchange]) == (if exchange is Answered {
            1nat
        } else {
            0nat
        }),
        count_answered(first) <= first.len(),
    decreases first.len() + second.len(),
{
    let single = seq![exchange];
    assert(single.drop_last() =~= Seq::<Exchange<T>>::empty());
    assert(count_answered(single.drop_last()) == 0);
    if second.len() > 0 {
        law_probes_count_those_that_answered(first, second.drop_last(), exchange);
        assert((first + second).drop_last() =~= first + second.drop_last());
    } else {
        assert(first + second =~= first);
        if first.len() > 0 {
            law_probes_count_those_that_answered(first.drop_last(), second, exchange);
        }
    }
}

/// A step changes what its stage is about and nothing else. Waiting for a turn under the
/// global rate concerns the global limiter alone. Taking a permit takes one of the
/// resolver's permits; waiting for a turn under the resolver's rate concerns its limiter;
/// sending counts an attempt; and nothing else of the resolver changes. The places change
/// where one is taken or given back, and the rotation where a resolver is looked for.
pub proof fn law_a_step_changes_one_thing(
    stage: Stage,
    pool: PoolView,
    limiter: LimiterView,
    now_ns: u64,
    next: Stage,
    next_pool: PoolView,
    next_limiter: LimiterView,
    action: Action,
)
    requires
        pool.wf(),
        stage.fits(pool),
        stage.steps(pool, limiter, now_ns as int, next, next_pool, next_limiter, action),
    ensures
        next_pool.resolvers.len() == pool.resolvers.len(),
        next_pool.capacity == pool.capacity,
        !(stage is Pace) ==> next_limiter == limiter,
        !(stage is Enter) && !(stage is Leave) ==> next_pool.entered == pool.entered,
        !(stage is Reserve) ==> next_pool.cursor == pool.cursor,
        stage is Pace || stage is Enter || stage is Leave ==> next_pool.resolvers
            == pool.resolvers,
        next matches Stage::PaceResolver(k) ==> next_pool.resolvers[k as int] == (HealthView {
            free: pool.resolvers[k as int].free - 1,
            ..pool.resolvers[k as int]
        }),
        stage matches Stage::PaceResolver(k) ==> {
            &&& next_pool.resolvers[k as int] == (HealthView {
                limiter: next_pool.resolvers[k as int].limiter,
                ..pool.resolvers[k as int]
            })
            &&& forall|i: int|
                0 <= i < pool.resolvers.len() && i != k ==> #[trigger] next_pool.resolvers[i]
                    == pool.resolvers[i]
        },
        stage matches Stage::Send(k) ==> {
            let was = pool.resolvers[k as int];
            was.counters.attempted < u64::MAX ==> next_pool.resolvers[k as int] == (HealthView {
                counters: Counters {
                    attempted: (was.counters.attempted + 1) as u64,
                    ..was.counters
                },
                ..was
            })
        },
{
    if stage is Reserve {
        let outcome = choose|outcome: Reserve|
            {
                &&& #[trigger] pool.passes(now_ns as int, outcome, next_pool)
                &&& Stage::reserves(pool, now_ns as int, outcome, next, action)
            };
        law_a_pass_stays_within_the_pool(pool, now_ns, outcome, next_pool);
        if let Reserve::Reserved(k) = outcome {
            law_a_reservation_is_within_the_cap(pool, now_ns, k, next_pool);
        }
    }
}

/// What is recorded of a resolver is what came of its query: a response with the time that
/// the query took and whether it held an answer, or a loss, which is a timeout where the
/// exchange was; both at the time at which they came. A truncated response is counted as
/// such.
pub proof fn law_what_came_of_a_query_is_recorded<T>(
    health: HealthView,
    answer: Answer<T>,
    error: BlastDNSError,
    cause: ClientError,
    rtt: Duration,
    now_ns: u64,
)
    ensures
        answer.truncated ==> after_exchange(
            health,
            Exchange::Answered(answer),
            rtt,
            now_ns as int,
        ) == health.after_truncation(),
        !answer.truncated && answer.answers > 0 ==> after_exchange(
            health,
            Exchange::Answered(answer),
            rtt,
            now_ns as int,
        ) == health.after_response(rtt, true, now_ns as int),
        !answer.truncated && answer.answers == 0 ==> after_exchange(
            health,
            Exchange::Answered(answer),
            rtt,
            now_ns as int,
        ) == health.after_response(rtt, false, now_ns as int),
        after_exchange(health, Exchange::<T>::Elapsed, rtt, now_ns as int) == health.after_error(
            true,
            now_ns as int,
        ),
        after_exchange(health, Exchange::<T>::NotConnected(error), rtt, now_ns as int)
            == health.after_error(false, now_ns as int),
        after_exchange(health, Exchange::<T>::Failed(cause), rtt, now_ns as int)
            == health.after_error(is_request_timeout(cause), now_ns as int),
{
}

/// A query that ends leaves its resolver with what came of it recorded and its permit back,
/// and nothing else changed.
pub proof fn law_an_ending_records_and_releases<T>(
    k: usize,
    pool: PoolView,
    exchange: Exchange<T>,
    had_answers: bool,
    rtt: Duration,
    now_ns: u64,
)
    requires
        pool.wf(),
        Stage::InFlight(k).may_settle(pool),
    ensures
        ({
            let (next, after) = Stage::InFlight(k).after_exchange(
                pool,
                exchange,
                rtt,
                now_ns as int,
            );
            let recorded = after_exchange(pool.resolvers[k as int], exchange, rtt, now_ns as int);
            &&& next == Stage::Settled ==> after.resolvers[k as int] == (HealthView {
                free: recorded.free + 1,
                ..recorded
            })
            &&& next != Stage::Settled ==> after.resolvers[k as int] == recorded
        }),
        ({
            let after = Stage::InFlight(k).after_refetch(pool, had_answers, rtt, now_ns as int);
            let recorded = pool.resolvers[k as int].after_response(rtt, had_answers, now_ns as int);
            after.resolvers[k as int] == (HealthView { free: recorded.free + 1, ..recorded })
        }),
{
}

} // verus!

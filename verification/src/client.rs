//! Making a client, and what it does with the attempts of a lookup.

use vstd::prelude::*;

use crate::address::Endpoint;
use crate::config::{at_least_one, is_default, BlastDNSConfig};
use crate::error::BlastDNSError;
use crate::health::{bump, bumped};
use crate::rate::{max, min, NanoQps, UNLIMITED_QPS};
use crate::utils::{
    check_ulimits, fds_needed, is_unread, parse_resolver, resolver_read, ulimit_objection,
    FileLimitReadings,
};
use crate::worker::QuerySpec;

verus! {

/// How many queries have finished, and how many of them returned nothing even
/// after retries.
#[derive(Clone, Copy, Debug, PartialEq, Eq, Structural)]
pub struct Outcomes {
    pub completed: u64,
    pub failed: u64,
}

impl Default for Outcomes {
    fn default() -> (outcomes: Outcomes)
        ensures
            outcomes.completed == 0,
            outcomes.failed == 0,
    {
        Outcomes { completed: 0, failed: 0 }
    }
}

impl Outcomes {
    /// Count a finished query.
    pub fn record(&mut self, answered: bool)
        ensures
            final(self).completed == bumped(old(self).completed),
            final(self).failed == (if answered {
                old(self).failed
            } else {
                bumped(old(self).failed)
            }),
    {
        self.completed = bump(self.completed);
        if !answered {
            self.failed = bump(self.failed);
        }
    }
}

/// A resolver as it was given.
#[derive(Debug)]
pub struct ResolverInput {
    /// The text that was given.
    pub text: String,
    /// The text read as an address with a port, or why it is none.
    pub direct: Result<Endpoint, String>,
}

impl ResolverInput {
    /// The resolver that the text stands for.
    pub open spec fn read(self) -> Option<Endpoint> {
        resolver_read(self.text@, self.direct)
    }
}

/// Whether every text stands for a resolver.
pub open spec fn all_read(inputs: Seq<ResolverInput>) -> bool {
    forall|i: int| 0 <= i < inputs.len() ==> (#[trigger] inputs[i]).read() is Some
}

/// Whether the text at `i` is the first that stands for no resolver.
pub open spec fn is_first_unread(inputs: Seq<ResolverInput>, i: int) -> bool {
    &&& 0 <= i < inputs.len()
    &&& inputs[i].read() is None
    &&& forall|j: int| 0 <= j < i ==> (#[trigger] inputs[j]).read() is Some
}

/// The resolvers that the texts stand for.
pub open spec fn endpoints(inputs: Seq<ResolverInput>) -> Seq<Endpoint> {
    inputs.map_values(|input: ResolverInput| input.read()->0)
}

/// The resolvers that the texts stand for. Fails at the first that stands for none.
fn parse_resolvers(inputs: &Vec<ResolverInput>) -> (parsed: Result<Vec<Endpoint>, BlastDNSError>)
    ensures
        match parsed {
            Ok(resolvers) => all_read(inputs@) && resolvers@ == endpoints(inputs@),
            Err(error) => exists|i: int|
                {
                    &&& #[trigger] is_first_unread(inputs@, i)
                    &&& is_unread(error, inputs@[i].text@, inputs@[i].direct)
                },
        },
{
    let mut resolvers: Vec<Endpoint> = Vec::new();
    let mut i: usize = 0;
    while i < inputs.len()
        invariant
            i <= inputs@.len(),
            all_read(inputs@.take(i as int)),
            resolvers@ == endpoints(inputs@.take(i as int)),
        decreases inputs@.len() - i,
    {
        let input: &ResolverInput = &inputs[i];
        match parse_resolver(input.text.as_str(), &input.direct) {
            Ok(resolver) => resolvers.push(resolver),
            Err(error) => {
                proof {
                    assert forall|j: int| 0 <= j < i implies (
                    #[trigger] inputs@[j]).read() is Some by {
                        assert(inputs@.take(i as int)[j] == inputs@[j]);
                    }
                    assert(is_first_unread(inputs@, i as int));
                }
                return Err(error);
            },
        }
        assert(inputs@.take(i + 1) =~= inputs@.take(i as int).push(inputs@[i as int]));
        i += 1;
    }
    assert(inputs@.take(i as int) =~= inputs@);
    Ok(resolvers)
}

/// What a client dispatches across, and how.
#[derive(Debug)]
pub struct BlastDNSClient {
    resolvers: Vec<Endpoint>,
    config: BlastDNSConfig,
    queue_capacity: usize,
}

/// What a [`BlastDNSClient`] holds.
#[verifier::ext_equal]
pub struct ClientView {
    pub resolvers: Seq<Endpoint>,
    pub config: BlastDNSConfig,
    /// How many lookups may wait for a worker.
    pub queue_capacity: int,
}

impl View for BlastDNSClient {
    type V = ClientView;

    closed spec fn view(&self) -> ClientView {
        ClientView {
            resolvers: self.resolvers@,
            config: self.config,
            queue_capacity: self.queue_capacity as int,
        }
    }
}

impl ClientView {
    /// There is a resolver, and the queue has a place for every worker, and one at
    /// least.
    pub open spec fn wf(self) -> bool {
        let workers = self.resolvers.len() * self.config.threads_per_resolver;
        &&& 0 < self.resolvers.len() <= usize::MAX
        &&& workers <= usize::MAX
        &&& self.queue_capacity == max(workers, 1)
    }
}

/// Whether the numbers that making a client of `count` resolvers computes stay within
/// range.
pub open spec fn fits(count: nat, config: BlastDNSConfig) -> bool {
    &&& fds_needed(config.max_concurrency as nat, count, config.persistent_socket) <= usize::MAX
    &&& count * config.threads_per_resolver <= usize::MAX
}

/// Whether the numbers that making a client of `count` resolvers computes stay within
/// range.
pub fn in_range(count: usize, config: &BlastDNSConfig) -> (fit: bool)
    ensures
        fit == fits(count as nat, *config),
{
    let sockets: usize = if config.persistent_socket {
        count
    } else {
        config.max_concurrency
    };
    let fds: Option<usize> = match sockets.checked_add(config.max_concurrency) {
        Some(sum) => sum.checked_add(100),
        None => None,
    };
    fds.is_some() && count.checked_mul(config.threads_per_resolver).is_some()
}

/// What came of making a client: it is refused where there is no resolver, then where
/// a text stands for none, then where the system's limits do not allow it.
pub open spec fn is_made(
    inputs: Seq<ResolverInput>,
    config: BlastDNSConfig,
    limits: Option<FileLimitReadings>,
    made: Result<BlastDNSClient, BlastDNSError>,
) -> bool {
    if inputs.len() == 0 {
        made == Err::<BlastDNSClient, BlastDNSError>(BlastDNSError::NoResolvers)
    } else if !all_read(inputs) {
        exists|i: int|
            {
                &&& #[trigger] is_first_unread(inputs, i)
                &&& made matches Err(error)
                &&& is_unread(error, inputs[i].text@, inputs[i].direct)
            }
    } else {
        match ulimit_objection(
            config.max_concurrency as nat,
            inputs.len(),
            config.persistent_socket,
            limits,
        ) {
            Some(text) => made matches Err(BlastDNSError::Configuration(said)) && said@ == text,
            None => made matches Ok(client) && client@.wf() && client@ == (ClientView {
                resolvers: endpoints(inputs),
                config,
                queue_capacity: max((inputs.len() * config.threads_per_resolver) as int, 1),
            }),
        }
    }
}

impl BlastDNSClient {
    /// Build a client using the default configuration. `limits` is what the system
    /// said of its limit on open files, if it has one.
    pub fn new(resolvers: Vec<ResolverInput>, limits: Option<FileLimitReadings>) -> (client: Result<
        BlastDNSClient,
        BlastDNSError,
    >)
        requires
            resolvers@.len() * 2 <= usize::MAX,
        ensures
            exists|config: BlastDNSConfig|
                is_default(config) && #[trigger] is_made(resolvers@, config, limits, client),
    {
        let config: BlastDNSConfig = BlastDNSConfig::default();
        Self::with_config(resolvers, config, limits)
    }

    /// Build a client with an explicit configuration.
    pub fn with_config(
        resolvers: Vec<ResolverInput>,
        config: BlastDNSConfig,
        limits: Option<FileLimitReadings>,
    ) -> (client: Result<BlastDNSClient, BlastDNSError>)
        requires
            resolvers@.len() > 0 && all_read(resolvers@) ==> fits(resolvers@.len(), config),
        ensures
            is_made(resolvers@, config, limits, client),
    {
        if resolvers.len() == 0 {
            return Err(BlastDNSError::NoResolvers);
        }
        let parsed: Vec<Endpoint> = match parse_resolvers(&resolvers) {
            Ok(parsed) => parsed,
            Err(error) => {
                proof {
                    let i = choose|i: int| #[trigger] is_first_unread(resolvers@, i);
                    assert(resolvers@[i].read() is None);
                }
                return Err(error);
            },
        };
        let count: usize = parsed.len();
        match check_ulimits(config.max_concurrency, count, config.persistent_socket, &limits) {
            Ok(_) => {},
            Err(text) => {
                return Err(BlastDNSError::Configuration(text));
            },
        }
        let queue_capacity: usize = at_least_one(count * config.threads_per_resolver);
        Ok(BlastDNSClient { resolvers: parsed, config, queue_capacity })
    }

    /// The resolvers that lookups are dispatched across.
    pub fn resolvers(&self) -> (resolvers: &Vec<Endpoint>)
        ensures
            resolvers@ == self@.resolvers,
    {
        &self.resolvers
    }

    /// The configuration.
    pub fn config(&self) -> (config: BlastDNSConfig)
        ensures
            config == self@.config,
    {
        self.config
    }

    /// How many lookups may wait for a worker.
    pub fn queue_capacity(&self) -> (capacity: usize)
        ensures
            capacity == self@.queue_capacity,
    {
        self.queue_capacity
    }

    /// How many workers are to run: as many per resolver as are configured, and one
    /// at least.
    pub fn worker_count(&self) -> (workers: usize)
        requires
            self@.wf(),
        ensures
            workers == self@.resolvers.len() * max(self@.config.threads_per_resolver as int, 1),
    {
        if self.config.threads_per_resolver >= 1 {
            self.resolvers.len() * self.config.threads_per_resolver
        } else {
            assert(self.resolvers@.len() * 1 == self.resolvers@.len()) by (nonlinear_arith);
            self.resolvers.len()
        }
    }

    /// How many lookups of a batch run at once: twice as many as may wait for a
    /// worker.
    pub fn batch_width(&self) -> (width: usize)
        requires
            self@.wf(),
            self@.queue_capacity * 2 <= usize::MAX,
        ensures
            width == self@.queue_capacity * 2,
    {
        self.queue_capacity * 2
    }

    /// The hard cap on the dispatch rate: the configured one, or none.
    pub fn rate_ceiling(&self) -> (ceiling: NanoQps)
        ensures
            ceiling == (match self@.config.rate_limit {
                Some(limit) => limit,
                None => UNLIMITED_QPS,
            }),
    {
        match self.config.rate_limit {
            Some(limit) => limit,
            None => UNLIMITED_QPS,
        }
    }

    /// Begin a lookup of `host` for records of the type of this code. The first attempt
    /// is to be made with the lookup's own query.
    pub fn resolve(&self, host: String, record_type: u16) -> (lookup: Lookup)
        ensures
            lookup.wf(),
            lookup == (Lookup {
                query: QuerySpec { host, record_type },
                attempts: min(self@.config.max_retries + 1, usize::MAX as int) as usize,
                made: 0,
            }),
    {
        Lookup {
            query: QuerySpec { host, record_type },
            attempts: self.config.max_retries.saturating_add(1),
            made: 0,
        }
    }
}

/// A lookup under way: what is asked for, how many attempts may be made, and how many
/// have failed.
#[derive(Debug)]
pub struct Lookup {
    pub query: QuerySpec,
    pub attempts: usize,
    pub made: usize,
}

/// What came of one attempt of a lookup.
#[derive(Debug)]
pub enum Attempt<T> {
    /// The queue did not take the query.
    QueueClosed,
    /// The worker that took the query went away without a word.
    WorkerDropped,
    /// A worker delivered a result.
    Delivered(Result<T, BlastDNSError>),
}

/// What a lookup does after an attempt.
#[derive(Debug)]
pub enum Next<T> {
    /// Attempt this query, which is that of the attempt before.
    Retry(QuerySpec),
    /// End with this result.
    Finish(Result<T, BlastDNSError>),
}

impl<T> Attempt<T> {
    /// The result that the attempt alone gives.
    pub open spec fn result(self) -> Result<T, BlastDNSError> {
        match self {
            Attempt::QueueClosed => Err(BlastDNSError::QueueClosed),
            Attempt::WorkerDropped => Err(BlastDNSError::WorkerDropped),
            Attempt::Delivered(result) => result,
        }
    }

    /// Whether another attempt may succeed where this one failed.
    pub open spec fn retryable(self) -> bool {
        self.result() matches Err(error) && error.retryable()
    }
}

impl Lookup {
    /// An attempt is under way.
    pub open spec fn wf(self) -> bool {
        self.made < self.attempts
    }

    /// Whether the lookup ends with `attempt`: it succeeded, or failed in a way that
    /// another attempt does not mend, or was the last.
    pub open spec fn ends_with<T>(self, attempt: Attempt<T>) -> bool {
        !attempt.retryable() || self.made + 1 == self.attempts
    }

    /// The lookup with the next attempt under way.
    pub open spec fn again(self) -> Lookup {
        Lookup { made: (self.made + 1) as usize, ..self }
    }

    /// The query that every attempt of the lookup is made with.
    pub fn query(&self) -> (query: QuerySpec)
        ensures
            query == self.query,
    {
        QuerySpec { host: self.query.host.clone(), record_type: self.query.record_type }
    }

    /// Take what came of the attempt under way.
    pub fn attempted<T>(&mut self, attempt: Attempt<T>) -> (next: Next<T>)
        requires
            old(self).wf(),
        ensures
            if old(self).ends_with(attempt) {
                next == Next::Finish(attempt.result()) && *final(self) == *old(self)
            } else {
                next == Next::<T>::Retry(old(self).query) && *final(self) == old(self).again()
                    && final(self).wf()
            },
    {
        let error: BlastDNSError = match attempt {
            Attempt::QueueClosed => {
                return Next::Finish(Err(BlastDNSError::QueueClosed));
            },
            Attempt::WorkerDropped => BlastDNSError::WorkerDropped,
            Attempt::Delivered(Ok(answer)) => {
                return Next::Finish(Ok(answer));
            },
            Attempt::Delivered(Err(error)) => error,
        };
        if self.made + 1 == self.attempts || !error.is_retryable() {
            return Next::Finish(Err(error));
        }
        self.made += 1;
        Next::Retry(self.query())
    }

    /// The position among `attempts` of the one that the lookup ends with, if these
    /// attempts come of it one after the other. Their number where none of them ends
    /// it.
    pub open spec fn end<T>(self, attempts: Seq<Attempt<T>>) -> nat
        decreases attempts.len(),
    {
        if attempts.len() == 0 || self.ends_with(attempts[0]) {
            0
        } else {
            1 + self.again().end(attempts.drop_first())
        }
    }
}

/// A lookup ends: of as many attempts as it may make, one ends it. Every attempt
/// before that one failed in a way that another attempt may mend, and the one that
/// ends it did not, unless it was the last that the lookup may make.
pub proof fn law_a_lookup_ends<T>(lookup: Lookup, attempts: Seq<Attempt<T>>)
    requires
        lookup.wf(),
        attempts.len() == lookup.attempts - lookup.made,
    ensures
        lookup.end(attempts) < attempts.len(),
        forall|i: int|
            0 <= i < lookup.end(attempts) ==> (#[trigger] attempts[i]).retryable(),
        attempts[lookup.end(attempts) as int].retryable() ==> lookup.end(attempts)
            == attempts.len() - 1,
    decreases attempts.len(),
{
    if !lookup.ends_with(attempts[0]) {
        let rest = attempts.drop_first();
        law_a_lookup_ends(lookup.again(), rest);
        assert forall|i: int| 0 <= i < lookup.end(attempts) implies (
        #[trigger] attempts[i]).retryable() by {
            if i > 0 {
                assert(attempts[i] == rest[i - 1]);
            }
        }
        assert(attempts[lookup.end(attempts) as int] == rest[lookup.again().end(rest) as int]);
    }
}

/// Every attempt of a lookup asks for the same host and type: a retry keeps the query
/// that the lookup began with.
pub proof fn law_attempts_ask_for_the_same(lookup: Lookup)
    ensures
        lookup.again().query == lookup.query,
        lookup.again().attempts == lookup.attempts,
{
}

/// A lookup that may be retried `max_retries` times is attempted at most once more
/// than that, and at least once.
pub proof fn law_retries_are_bounded<T>(
    lookup: Lookup,
    max_retries: usize,
    attempts: Seq<Attempt<T>>,
)
    requires
        lookup.made == 0,
        lookup.attempts == min(max_retries + 1, usize::MAX as int),
        attempts.len() == lookup.attempts,
    ensures
        lookup.wf(),
        1 <= lookup.end(attempts) + 1 <= max_retries + 1,
{
    law_a_lookup_ends(lookup, attempts);
}

/// A closed queue, and an answer, end a lookup at once.
pub proof fn law_an_answer_ends_a_lookup<T>(lookup: Lookup, answer: T)
    requires
        lookup.wf(),
    ensures
        lookup.ends_with(Attempt::Delivered(Ok::<T, BlastDNSError>(answer))),
        lookup.ends_with(Attempt::<T>::QueueClosed),
{
}

/// A client is made of all that it was given, or not at all: where there is one, its
/// resolvers are the ones that the texts stand for, one for each and in their order, with
/// the configuration as it was given.
pub proof fn law_a_client_has_every_resolver(
    inputs: Seq<ResolverInput>,
    config: BlastDNSConfig,
    limits: Option<FileLimitReadings>,
    client: BlastDNSClient,
    i: int,
)
    requires
        is_made(inputs, config, limits, Ok::<BlastDNSClient, BlastDNSError>(client)),
        0 <= i < inputs.len(),
    ensures
        client@.resolvers.len() == inputs.len(),
        resolver_read(inputs[i].text@, inputs[i].direct) == Some(client@.resolvers[i]),
        client@.config == config,
        client@.queue_capacity >= 1,
        client@.queue_capacity == inputs.len() * config.threads_per_resolver
            || inputs.len() * config.threads_per_resolver == 0 && client@.queue_capacity == 1,
{
    assert(inputs[i].read() is Some);
}

/// When a client is made and why it is not: it is refused without any resolver, then for
/// the first text that stands for none, with that text and why, then for what is said
/// against the configuration, and for nothing else.
pub proof fn law_a_client_is_refused_for_a_reason(
    inputs: Seq<ResolverInput>,
    config: BlastDNSConfig,
    limits: Option<FileLimitReadings>,
    made: Result<BlastDNSClient, BlastDNSError>,
)
    requires
        is_made(inputs, config, limits, made),
    ensures
        made is Ok <==> {
            &&& inputs.len() > 0
            &&& forall|i: int|
                0 <= i < inputs.len() ==> resolver_read(
                    (#[trigger] inputs[i]).text@,
                    inputs[i].direct,
                ) is Some
            &&& ulimit_objection(
                config.max_concurrency as nat,
                inputs.len(),
                config.persistent_socket,
                limits,
            ) is None
        },
        made matches Err(error) ==> {
            &&& error is NoResolvers <==> inputs.len() == 0
            &&& error matches BlastDNSError::InvalidResolver { resolver, source } ==> exists|i: int|
                {
                    &&& 0 <= i < inputs.len()
                    &&& resolver@ == (#[trigger] inputs[i]).text@
                    &&& inputs[i].direct == Err::<Endpoint, String>(source)
                    &&& resolver_read(inputs[i].text@, inputs[i].direct) is None
                    &&& forall|j: int|
                        0 <= j < i ==> resolver_read(
                            (#[trigger] inputs[j]).text@,
                            inputs[j].direct,
                        ) is Some
                }
            &&& error matches BlastDNSError::Configuration(text) ==> Some(text@)
                == ulimit_objection(
                config.max_concurrency as nat,
                inputs.len(),
                config.persistent_socket,
                limits,
            )
            &&& error is NoResolvers || error is InvalidResolver || error is Configuration
        },
{
    if inputs.len() > 0 && !all_read(inputs) {
        let i = choose|i: int|
            {
                &&& #[trigger] is_first_unread(inputs, i)
                &&& made matches Err(error)
                &&& is_unread(error, inputs[i].text@, inputs[i].direct)
            };
        assert(inputs[i].read() is None);
        assert forall|j: int| 0 <= j < i implies resolver_read(
            (#[trigger] inputs[j]).text@,
            inputs[j].direct,
        ) is Some by {
            assert(inputs[j].read() is Some);
        }
    } else if inputs.len() > 0 {
        assert forall|i: int| 0 <= i < inputs.len() implies resolver_read(
            (#[trigger] inputs[i]).text@,
            inputs[i].direct,
        ) is Some by {
            assert(inputs[i].read() is Some);
        }
    }
}

/// A lookup is attempted again exactly where the attempt failed at a resolver and there
/// are attempts left; otherwise it ends with what the attempt gave. Each retry uses up
/// one attempt and changes nothing else.
pub proof fn law_a_failed_attempt_is_retried_while_attempts_are_left<T>(
    lookup: Lookup,
    error: BlastDNSError,
    result: Result<T, BlastDNSError>,
)
    requires
        lookup.wf(),
    ensures
        lookup.ends_with(Attempt::Delivered(Err::<T, BlastDNSError>(error))) <==> !(
        error is ResolverSetupFailed || error is ResolverRequestFailed || error is QueryTimedOut)
            || lookup.made + 1 == lookup.attempts,
        lookup.ends_with(Attempt::<T>::WorkerDropped),
        lookup.ends_with(Attempt::<T>::QueueClosed),
        Attempt::Delivered(result).result() == result,
        Attempt::<T>::QueueClosed.result() == Err::<T, BlastDNSError>(BlastDNSError::QueueClosed),
        Attempt::<T>::WorkerDropped.result() == Err::<T, BlastDNSError>(
            BlastDNSError::WorkerDropped,
        ),
        lookup.again().made == lookup.made + 1,
        lookup.again().attempts == lookup.attempts,
        lookup.again().query == lookup.query,
{
}

/// All retries are used before a lookup is given up: where every attempt fails at a
/// resolver, a lookup that may be retried `max_retries` times is attempted exactly once
/// more than that.
pub proof fn law_every_retry_is_used<T>(
    lookup: Lookup,
    max_retries: usize,
    attempts: Seq<Attempt<T>>,
)
    requires
        max_retries < usize::MAX,
        lookup.made == 0,
        lookup.attempts == max_retries + 1,
        attempts.len() == max_retries + 1,
        forall|i: int|
            0 <= i < attempts.len() ==> {
                &&& #[trigger] attempts[i] matches Attempt::Delivered(Err(error))
                &&& error is ResolverSetupFailed || error is ResolverRequestFailed
                    || error is QueryTimedOut
            },
    ensures
        lookup.end(attempts) == max_retries,
{
    law_a_lookup_ends(lookup, attempts);
    assert(attempts[lookup.end(attempts) as int].retryable());
}

/// The numbers that making a client computes stay in range just where those of its file
/// descriptors and those of its workers do.
pub proof fn law_a_configuration_fits_by_its_sums(count: nat, config: BlastDNSConfig)
    ensures
        config.persistent_socket ==> (fits(count, config) <==> count + config.max_concurrency + 100
            <= usize::MAX && count * config.threads_per_resolver <= usize::MAX),
        !config.persistent_socket ==> (fits(count, config) <==> 2 * config.max_concurrency + 100
            <= usize::MAX && count * config.threads_per_resolver <= usize::MAX),
{
}

} // verus!

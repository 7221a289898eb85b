//! Configuration knobs.

use std::time::Duration;

use vstd::prelude::*;

use crate::rate::{max, NanoQps};
use crate::span::duration_nanos;

verus! {

/// Default number of worker tasks per resolver.
pub const DEFAULT_THREADS_PER_RESOLVER: usize = 2;

/// Default cap on queries in flight to any single resolver.
pub const DEFAULT_MAX_INFLIGHT_PER_RESOLVER: usize = 2;

/// Default cap on queries in flight across the whole client.
pub const DEFAULT_MAX_CONCURRENCY: usize = 256;

/// Default timeout in milliseconds used for each resolver request.
pub const DEFAULT_REQUEST_TIMEOUT_MS: u64 = 1000;

/// Default number of retry attempts per hostname.
pub const DEFAULT_MAX_RETRIES: usize = 10;

/// Default consecutive error count needed to bench a resolver.
pub const DEFAULT_PURGATORY_THRESHOLD: usize = 10;

/// Default purgatory sentence in milliseconds.
pub const DEFAULT_PURGATORY_SENTENCE_MS: u64 = 1000;

/// Default cache capacity (0 = disabled).
pub const DEFAULT_CACHE_CAPACITY: usize = 10000;

/// Default minimum TTL in seconds for cached entries.
pub const DEFAULT_CACHE_MIN_TTL_SECS: u64 = 10;

/// Default maximum TTL in seconds for cached entries.
pub const DEFAULT_CACHE_MAX_TTL_SECS: u64 = 86400;

/// Configuration knobs for a client.
#[derive(Clone, Copy, Debug)]
pub struct BlastDNSConfig {
    /// Worker tasks per resolver.
    pub threads_per_resolver: usize,
    /// Cap on queries in flight to any one resolver. This is the politeness
    /// bound: no resolver can be sent more than this at once, however large the
    /// pool or the workload.
    pub max_inflight_per_resolver: usize,
    /// Cap on queries in flight across all resolvers.
    pub max_concurrency: usize,
    /// Ceiling on dispatch rate. `None` is unlimited, in which case throughput is
    /// bounded only by concurrency and latency.
    ///
    /// This is a hard cap, independent of `adaptive`: the controller can lower
    /// the effective rate below it but never above it.
    pub rate_limit: Option<NanoQps>,
    /// Watch loss and back off automatically. When a resolver starts dropping
    /// queries, pacing retreats below the rate at which that happened, whether or
    /// not `rate_limit` is set.
    pub adaptive: bool,
    /// Probe each resolver once at startup and keep only those that answer.
    pub resolver_probe: bool,
    /// Keep one long-lived socket per resolver, multiplexing queries over it by
    /// transaction ID, instead of binding a fresh socket per query.
    pub persistent_socket: bool,
    /// Per-request timeout while talking to a resolver.
    pub request_timeout: Duration,
    /// How many times to retry a failed lookup.
    pub max_retries: usize,
    /// Consecutive errors before a resolver is benched.
    pub purgatory_threshold: usize,
    /// How long a resolver stays benched after hitting the threshold.
    pub purgatory_sentence: Duration,
    /// Maximum number of entries in the DNS cache (0 = disabled).
    pub cache_capacity: usize,
    /// Minimum TTL for cached entries.
    pub cache_min_ttl: Duration,
    /// Maximum TTL for cached entries.
    pub cache_max_ttl: Duration,
}

/// Config shape with times as plain numbers, as it crosses a language boundary.
#[derive(Debug)]
pub struct BlastDNSConfigWire {
    pub threads_per_resolver: usize,
    pub max_inflight_per_resolver: usize,
    pub max_concurrency: usize,
    pub rate_limit: Option<NanoQps>,
    pub adaptive: bool,
    pub resolver_probe: bool,
    pub persistent_socket: bool,
    pub request_timeout_ms: u64,
    pub max_retries: usize,
    pub purgatory_threshold: usize,
    pub purgatory_sentence_ms: u64,
    pub cache_capacity: usize,
    pub cache_min_ttl_secs: u64,
    pub cache_max_ttl_secs: u64,
}

/// What `wire` becomes: counts that must be positive and timeouts are raised to
/// one, a rate limit of zero is none, and everything else is carried over.
pub open spec fn reads_wire(config: BlastDNSConfig, wire: BlastDNSConfigWire) -> bool {
    &&& config.threads_per_resolver == max(wire.threads_per_resolver as int, 1)
    &&& config.max_inflight_per_resolver == max(wire.max_inflight_per_resolver as int, 1)
    &&& config.max_concurrency == max(wire.max_concurrency as int, 1)
    &&& config.rate_limit == (if wire.rate_limit == Some(0 as NanoQps) {
        None
    } else {
        wire.rate_limit
    })
    &&& config.adaptive == wire.adaptive
    &&& config.resolver_probe == wire.resolver_probe
    &&& config.persistent_socket == wire.persistent_socket
    &&& duration_nanos(config.request_timeout) == max(wire.request_timeout_ms as int, 1) * 1_000_000
    &&& config.max_retries == wire.max_retries
    &&& config.purgatory_threshold == wire.purgatory_threshold
    &&& duration_nanos(config.purgatory_sentence) == max(wire.purgatory_sentence_ms as int, 1)
        * 1_000_000
    &&& config.cache_capacity == wire.cache_capacity
    &&& duration_nanos(config.cache_min_ttl) == wire.cache_min_ttl_secs * 1_000_000_000
    &&& duration_nanos(config.cache_max_ttl) == wire.cache_max_ttl_secs * 1_000_000_000
}

impl vstd::std_specs::convert::FromSpecImpl<BlastDNSConfigWire> for BlastDNSConfig {
    open spec fn obeys_from_spec() -> bool {
        false
    }

    open spec fn from_spec(wire: BlastDNSConfigWire) -> BlastDNSConfig {
        arbitrary()
    }
}

impl From<BlastDNSConfigWire> for BlastDNSConfig {
    fn from(wire: BlastDNSConfigWire) -> (config: BlastDNSConfig)
        ensures
            reads_wire(config, wire),
    {
        BlastDNSConfig {
            threads_per_resolver: at_least_one(wire.threads_per_resolver),
            max_inflight_per_resolver: at_least_one(wire.max_inflight_per_resolver),
            max_concurrency: at_least_one(wire.max_concurrency),
            rate_limit: match wire.rate_limit {
                Some(rate) if rate > 0 => Some(rate),
                _ => None,
            },
            adaptive: wire.adaptive,
            resolver_probe: wire.resolver_probe,
            persistent_socket: wire.persistent_socket,
            request_timeout: at_least_a_millisecond(wire.request_timeout_ms),
            max_retries: wire.max_retries,
            purgatory_threshold: wire.purgatory_threshold,
            purgatory_sentence: at_least_a_millisecond(wire.purgatory_sentence_ms),
            cache_capacity: wire.cache_capacity,
            cache_min_ttl: Duration::from_secs(wire.cache_min_ttl_secs),
            cache_max_ttl: Duration::from_secs(wire.cache_max_ttl_secs),
        }
    }
}

/// `n`, or one where it is zero.
pub fn at_least_one(n: usize) -> (positive: usize)
    ensures
        positive == max(n as int, 1),
{
    if n >= 1 {
        n
    } else {
        1
    }
}

/// A duration of `millis` milliseconds, or of one where that is zero.
pub fn at_least_a_millisecond(millis: u64) -> (duration: Duration)
    ensures
        duration_nanos(duration) == max(millis as int, 1) * 1_000_000,
{
    Duration::from_millis(if millis >= 1 {
        millis
    } else {
        1
    })
}

/// Whether `config` is the default configuration.
pub open spec fn is_default(config: BlastDNSConfig) -> bool {
    &&& config.threads_per_resolver == DEFAULT_THREADS_PER_RESOLVER
    &&& config.max_inflight_per_resolver == DEFAULT_MAX_INFLIGHT_PER_RESOLVER
    &&& config.max_concurrency == DEFAULT_MAX_CONCURRENCY
    &&& config.rate_limit is None
    &&& config.adaptive
    &&& !config.resolver_probe
    &&& !config.persistent_socket
    &&& duration_nanos(config.request_timeout) == DEFAULT_REQUEST_TIMEOUT_MS * 1_000_000
    &&& config.max_retries == DEFAULT_MAX_RETRIES
    &&& config.purgatory_threshold == DEFAULT_PURGATORY_THRESHOLD
    &&& duration_nanos(config.purgatory_sentence) == DEFAULT_PURGATORY_SENTENCE_MS * 1_000_000
    &&& config.cache_capacity == DEFAULT_CACHE_CAPACITY
    &&& duration_nanos(config.cache_min_ttl) == DEFAULT_CACHE_MIN_TTL_SECS * 1_000_000_000
    &&& duration_nanos(config.cache_max_ttl) == DEFAULT_CACHE_MAX_TTL_SECS * 1_000_000_000
}

impl Default for BlastDNSConfig {
    fn default() -> (config: BlastDNSConfig)
        ensures
            is_default(config),
    {
        BlastDNSConfig {
            threads_per_resolver: DEFAULT_THREADS_PER_RESOLVER,
            max_inflight_per_resolver: DEFAULT_MAX_INFLIGHT_PER_RESOLVER,
            max_concurrency: DEFAULT_MAX_CONCURRENCY,
            rate_limit: None,
            adaptive: true,
            resolver_probe: false,
            persistent_socket: false,
            request_timeout: Duration::from_millis(DEFAULT_REQUEST_TIMEOUT_MS),
            max_retries: DEFAULT_MAX_RETRIES,
            purgatory_threshold: DEFAULT_PURGATORY_THRESHOLD,
            purgatory_sentence: Duration::from_millis(DEFAULT_PURGATORY_SENTENCE_MS),
            cache_capacity: DEFAULT_CACHE_CAPACITY,
            cache_min_ttl: Duration::from_secs(DEFAULT_CACHE_MIN_TTL_SECS),
            cache_max_ttl: Duration::from_secs(DEFAULT_CACHE_MAX_TTL_SECS),
        }
    }
}

/// A configuration that crosses the boundary with positive counts and times comes out as
/// it went in. Counts of zero that would leave nothing to run become one, times of zero
/// become a millisecond, and a rate limit of zero becomes none.
pub proof fn law_a_configuration_crosses_unchanged(
    config: BlastDNSConfig,
    wire: BlastDNSConfigWire,
)
    requires
        reads_wire(config, wire),
    ensures
        wire.threads_per_resolver >= 1 ==> config.threads_per_resolver == wire.threads_per_resolver,
        wire.threads_per_resolver == 0 ==> config.threads_per_resolver == 1,
        wire.max_inflight_per_resolver >= 1 ==> config.max_inflight_per_resolver
            == wire.max_inflight_per_resolver,
        wire.max_inflight_per_resolver == 0 ==> config.max_inflight_per_resolver == 1,
        wire.max_concurrency >= 1 ==> config.max_concurrency == wire.max_concurrency,
        wire.max_concurrency == 0 ==> config.max_concurrency == 1,
        wire.rate_limit matches Some(rate) ==> (if rate > 0 {
            config.rate_limit == Some(rate)
        } else {
            config.rate_limit is None
        }),
        wire.rate_limit is None ==> config.rate_limit is None,
        config.adaptive == wire.adaptive,
        config.resolver_probe == wire.resolver_probe,
        config.persistent_socket == wire.persistent_socket,
        wire.request_timeout_ms >= 1 ==> duration_nanos(config.request_timeout)
            == wire.request_timeout_ms * 1_000_000,
        wire.request_timeout_ms == 0 ==> duration_nanos(config.request_timeout) == 1_000_000,
        config.max_retries == wire.max_retries,
        config.purgatory_threshold == wire.purgatory_threshold,
        wire.purgatory_sentence_ms >= 1 ==> duration_nanos(config.purgatory_sentence)
            == wire.purgatory_sentence_ms * 1_000_000,
        wire.purgatory_sentence_ms == 0 ==> duration_nanos(config.purgatory_sentence) == 1_000_000,
        config.cache_capacity == wire.cache_capacity,
        duration_nanos(config.cache_min_ttl) == wire.cache_min_ttl_secs * 1_000_000_000,
        duration_nanos(config.cache_max_ttl) == wire.cache_max_ttl_secs * 1_000_000_000,
{
}

/// The default is polite and adaptive: two workers and at most two queries in flight per
/// resolver, at most 256 in all, no rate limit, a second to answer, ten retries, and a
/// second of purgatory after ten errors in a row.
pub proof fn law_the_default_is_polite(config: BlastDNSConfig)
    requires
        is_default(config),
    ensures
        config.threads_per_resolver == 2,
        config.max_inflight_per_resolver == 2,
        config.max_concurrency == 256,
        config.rate_limit is None,
        config.adaptive,
        !config.resolver_probe,
        !config.persistent_socket,
        duration_nanos(config.request_timeout) == 1_000_000_000,
        config.max_retries == 10,
        config.purgatory_threshold == 10,
        duration_nanos(config.purgatory_sentence) == 1_000_000_000,
        config.cache_capacity == 10_000,
        duration_nanos(config.cache_min_ttl) == 10 * 1_000_000_000,
        duration_nanos(config.cache_max_ttl) == 86_400 * 1_000_000_000,
{
}

} // verus!

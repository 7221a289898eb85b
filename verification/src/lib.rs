//! Bulk DNS lookups in parallel with many resolvers.
//!
//! This crate holds the decisions of a DNS client that spreads lookups over a list of
//! resolvers, each stated in a contract and proved: which resolver is asked next, when,
//! how fast it may be asked, when it is left alone, when a lookup is tried again, and
//! what is made of each outcome. Sockets, timers and tasks are the caller's: where a
//! decision depends on them, the caller hands in the time, or what came of the outside
//! work, as a plain value, and gets back what to do next.
//!
//! A query goes through these parts:
//!
//! - [`client`] makes a client of a list of resolvers, and decides after each attempt
//!   of a lookup whether there is another.
//! - [`worker`] takes one query step by step from the queue to its outcome.
//! - [`limiter`] spaces dispatches, globally and for each resolver.
//! - [`pool`] selects the resolver to ask, and [`health`] keeps what is known of one.
//! - [`controller`] watches loss and moves the pacing below the rate at which it
//!   appears.
//!
//! Times are nanoseconds since an epoch of the caller's choice, and rates are billionths
//! of a query per second, so that all arithmetic is on integers.

pub mod address;
pub mod client;
pub mod config;
pub mod controller;
pub mod error;
pub mod health;
pub mod limiter;
pub mod lists;
pub mod names;
pub mod permits;
pub mod pool;
pub mod rate;
pub mod span;
pub mod text;
pub mod utils;
pub mod worker;
pub mod zone_transfer;

pub use client::BlastDNSClient;
pub use config::{
    BlastDNSConfig, DEFAULT_CACHE_CAPACITY, DEFAULT_CACHE_MAX_TTL_SECS, DEFAULT_CACHE_MIN_TTL_SECS,
    DEFAULT_MAX_CONCURRENCY, DEFAULT_MAX_INFLIGHT_PER_RESOLVER, DEFAULT_MAX_RETRIES,
    DEFAULT_PURGATORY_SENTENCE_MS, DEFAULT_PURGATORY_THRESHOLD, DEFAULT_REQUEST_TIMEOUT_MS,
    DEFAULT_THREADS_PER_RESOLVER,
};
pub use error::BlastDNSError;
pub use health::ResolverStats;
pub use limiter::RateLimiter;
pub use utils::{check_ulimits, get_system_resolvers};
pub use zone_transfer::{zone_transfer, ZoneTransferResult};

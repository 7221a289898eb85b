use std::time::Duration;

use hickory_client::proto::{ProtoError, ProtoErrorKind};
use hickory_client::{ClientError, ClientErrorKind};

use blastdns::address::{Endpoint, IpAddress};
use blastdns::client::{in_range, Attempt, Lookup, Next, Outcomes, ResolverInput};
use blastdns::rate::{ONE_QPS, UNLIMITED_QPS};
use blastdns::utils::{FileLimit, FileLimitReadings};
use blastdns::{BlastDNSClient, BlastDNSConfig, BlastDNSError};

/// A resolver that is given without a port.
fn input(text: &str) -> ResolverInput {
    ResolverInput {
        text: text.to_string(),
        direct: Err("invalid socket address syntax".to_string()),
    }
}

fn client(count: u32, config: BlastDNSConfig) -> BlastDNSClient {
    let inputs = (0..count).map(|n| input(&format!("10.0.0.{n}"))).collect();
    BlastDNSClient::with_config(inputs, config, None).expect("client init")
}

fn timed_out() -> BlastDNSError {
    BlastDNSError::QueryTimedOut {
        resolver: Endpoint { ip: IpAddress::V4(0x7f00_0001), port: 53, scope_id: 0 },
        timeout: Duration::from_secs(1),
    }
}

fn invalid() -> BlastDNSError {
    BlastDNSError::InvalidHostname {
        name: "..".to_string(),
        source: ProtoError::from(ProtoErrorKind::Busy),
    }
}

#[test]
fn rejects_empty_resolvers() {
    let err = BlastDNSClient::new(Vec::new(), None).expect_err("expected failure");
    assert!(matches!(err, BlastDNSError::NoResolvers));
    assert_eq!(err.message(), "no resolvers provided");
}

#[test]
fn the_first_bad_resolver_is_named() {
    let inputs = vec![input("1.1.1.1"), input("one"), input("two")];
    let err = BlastDNSClient::new(inputs, None).expect_err("expected failure");
    assert_eq!(err.message(), "invalid resolver `one`");
    assert!(matches!(
        err,
        BlastDNSError::InvalidResolver { source, .. } if source == "invalid socket address syntax"
    ));
}

#[test]
fn a_system_that_cannot_carry_the_client_refuses_it() {
    let limits = FileLimitReadings {
        initial: Some(FileLimit { soft: 64, hard: 64 }),
        raise: Ok(()),
        reread: None,
    };
    let err = BlastDNSClient::new(vec![input("1.1.1.1")], Some(limits))
        .expect_err("expected failure");
    assert!(matches!(err, BlastDNSError::Configuration(_)));
    assert_eq!(
        err.message(),
        "NOFILE limit too low even after raising soft limit: current=64, required=612\n\
         max_concurrency of 256 needs ~612 FDs\n\
         Increase with: ulimit -n 612 (or higher), or lower max_concurrency"
    );
}

#[test]
fn a_client_keeps_what_it_was_given() {
    let direct = Endpoint { ip: IpAddress::V6(9), port: 5353, scope_id: 0 };
    let inputs = vec![
        ResolverInput { text: "[::9]:5353".to_string(), direct: Ok(direct) },
        input("0.0.0.7"),
    ];
    let client = BlastDNSClient::new(inputs, None).expect("client init");
    assert_eq!(
        *client.resolvers(),
        vec![direct, Endpoint { ip: IpAddress::V4(7), port: 53, scope_id: 0 }]
    );
    assert_eq!(client.config().max_retries, 10);
    assert_eq!(client.queue_capacity(), 4);
    assert_eq!(client.worker_count(), 4);
    assert_eq!(client.batch_width(), 8);
    assert_eq!(client.rate_ceiling(), UNLIMITED_QPS);
}

#[test]
fn a_client_without_threads_still_works() {
    let config = BlastDNSConfig {
        threads_per_resolver: 0,
        rate_limit: Some(5 * ONE_QPS),
        ..Default::default()
    };
    let client = client(3, config);
    assert_eq!(client.queue_capacity(), 1);
    assert_eq!(client.worker_count(), 3);
    assert_eq!(client.batch_width(), 2);
    assert_eq!(client.rate_ceiling(), 5 * ONE_QPS);
}

fn lookup(max_retries: usize) -> Lookup {
    client(1, BlastDNSConfig { max_retries, ..Default::default() })
        .resolve("h.example.com.".to_string(), 28)
}

#[test]
fn an_answer_ends_a_lookup() {
    let next = lookup(10).attempted(Attempt::Delivered(Ok(42)));
    assert!(matches!(next, Next::Finish(Ok(42))));
}

#[test]
fn a_lookup_is_retried_as_often_as_configured() {
    let mut lookup = lookup(3);
    assert_eq!(lookup.query().host, "h.example.com.");
    assert_eq!(lookup.query().record_type, 28);
    for _ in 0..3 {
        let next: Next<()> = lookup.attempted(Attempt::Delivered(Err(timed_out())));
        let Next::Retry(query) = next else {
            panic!("a timeout is retried");
        };
        assert_eq!(query.host, "h.example.com.", "for the same host");
        assert_eq!(query.record_type, 28, "and the same type");
    }
    let next: Next<()> = lookup.attempted(Attempt::Delivered(Err(timed_out())));
    assert!(matches!(next, Next::Finish(Err(BlastDNSError::QueryTimedOut { .. }))));
}

#[test]
fn no_retries_mean_one_attempt() {
    let next: Next<()> = lookup(0).attempted(Attempt::Delivered(Err(timed_out())));
    assert!(matches!(next, Next::Finish(Err(BlastDNSError::QueryTimedOut { .. }))));
    assert_eq!(lookup(usize::MAX).attempts, usize::MAX);
}

#[test]
fn what_no_retry_mends_is_not_retried() {
    let next: Next<()> = lookup(10).attempted(Attempt::Delivered(Err(invalid())));
    assert!(matches!(next, Next::Finish(Err(BlastDNSError::InvalidHostname { .. }))));
    let next: Next<()> = lookup(10).attempted(Attempt::QueueClosed);
    assert!(matches!(next, Next::Finish(Err(BlastDNSError::QueueClosed))));
    let next: Next<()> = lookup(10).attempted(Attempt::WorkerDropped);
    assert!(matches!(next, Next::Finish(Err(BlastDNSError::WorkerDropped))));
}

#[test]
fn configurations_that_overflow_are_told() {
    let config = BlastDNSConfig::default();
    assert!(in_range(1000, &config));
    assert!(!in_range(usize::MAX, &config), "the workers overflow");
    let wide = BlastDNSConfig { max_concurrency: usize::MAX / 2, ..config };
    assert!(!in_range(1, &wide), "the file descriptors overflow");
}

#[test]
fn outcomes_count_what_was_lost() {
    let mut outcomes = Outcomes::default();
    outcomes.record(true);
    outcomes.record(false);
    outcomes.record(true);
    assert_eq!(outcomes, Outcomes { completed: 3, failed: 1 });
}

fn resolver() -> Endpoint {
    Endpoint { ip: IpAddress::V4(0x0909_0909), port: 53, scope_id: 0 }
}

#[test]
fn errors_say_what_went_wrong() {
    assert_eq!(invalid().message(), "invalid hostname `..`");
    assert_eq!(BlastDNSError::QueueClosed.message(), "request queue closed");
    assert_eq!(
        BlastDNSError::WorkerDropped.message(),
        "resolver workers dropped before delivering a response"
    );
    let source = ProtoError::from(ProtoErrorKind::Busy);
    assert_eq!(
        BlastDNSError::ResolverSetupFailed { resolver: resolver(), source }.message(),
        "failed to initialize resolver 9.9.9.9:53"
    );
    assert_eq!(
        BlastDNSError::ResolverRequestFailed {
            resolver: resolver(),
            source: ClientError::from(ClientErrorKind::Timeout),
        }
        .message(),
        "resolver 9.9.9.9:53 query failed"
    );
    assert_eq!(timed_out().message(), "resolver 127.0.0.1:53 query timed out");
    assert_eq!(BlastDNSError::Configuration("why".to_string()).message(), "why");
}

#[test]
fn timeouts_are_told_from_other_failures() {
    let request = |kind: ClientErrorKind| BlastDNSError::ResolverRequestFailed {
        resolver: resolver(),
        source: ClientError::from(kind),
    };
    assert!(request(ClientErrorKind::Timeout).is_timeout());
    assert!(!request(ClientErrorKind::Message("busy")).is_timeout());
    assert!(timed_out().is_timeout());
    assert!(!BlastDNSError::NoResolvers.is_timeout());
}

#[test]
fn only_resolver_failures_are_retryable() {
    let source = ProtoError::from(ProtoErrorKind::Timeout);
    for err in [
        timed_out(),
        BlastDNSError::ResolverRequestFailed {
            resolver: resolver(),
            source: ClientError::from(ClientErrorKind::Message("busy")),
        },
        BlastDNSError::ResolverSetupFailed { resolver: resolver(), source },
    ] {
        assert!(err.is_retryable(), "{}", err.message());
    }
    for err in [
        invalid(),
        BlastDNSError::NoResolvers,
        BlastDNSError::QueueClosed,
        BlastDNSError::WorkerDropped,
        BlastDNSError::InvalidResolver {
            resolver: "9.9.9.9:x".to_string(),
            source: "why".to_string(),
        },
        BlastDNSError::Configuration("why".to_string()),
    ] {
        assert!(!err.is_retryable(), "{}", err.message());
    }
}

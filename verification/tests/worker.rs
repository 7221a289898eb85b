use std::time::Duration;

use hickory_client::proto::{ProtoError, ProtoErrorKind};
use hickory_client::{ClientError, ClientErrorKind};

use blastdns::address::{Endpoint, IpAddress};
use blastdns::config::BlastDNSConfig;
use blastdns::health::ResolverHealth;
use blastdns::pool::ResolverPool;
use blastdns::rate::{ONE_QPS, UNLIMITED_QPS};
use blastdns::worker::{
    probe_query, query, refetch_over_tcp, refetched, take_up, Action, Answer, Dispatch, Exchange,
    QuerySpec, Received, Stage,
};
use blastdns::{BlastDNSError, RateLimiter};

const MS: u64 = 1_000_000;

fn endpoint(n: u32) -> Endpoint {
    Endpoint { ip: IpAddress::V4(0x0a00_0000 + n), port: 53, scope_id: 0 }
}

fn config() -> BlastDNSConfig {
    BlastDNSConfig {
        max_inflight_per_resolver: 1,
        purgatory_threshold: 1,
        purgatory_sentence: Duration::from_millis(50),
        request_timeout: Duration::from_millis(300),
        ..Default::default()
    }
}

fn pool(count: u32) -> ResolverPool {
    let resolvers: Vec<Endpoint> = (0..count).map(endpoint).collect();
    ResolverPool::new(&resolvers, &config())
}

fn health() -> ResolverHealth {
    ResolverHealth::new(endpoint(7), &config())
}

fn answer(message: &str, truncated: bool, answers: usize) -> Answer<String> {
    Answer { message: message.to_string(), truncated, answers }
}

fn rtt() -> Duration {
    Duration::from_millis(20)
}

fn not_connected() -> BlastDNSError {
    health().bind_failed("Address already in use (os error 98)")
}

/// Step until something is to be done, and return what.
fn run(
    dispatch: &mut Dispatch,
    pool: &mut ResolverPool,
    limiter: &mut RateLimiter,
    now_ns: u64,
) -> Action {
    loop {
        match dispatch.step(pool, limiter, now_ns) {
            Action::Proceed => continue,
            action => return action,
        }
    }
}

#[test]
fn an_unusable_hostname_is_not_dispatched() {
    let spec = QuerySpec { host: "no spaces".to_string(), record_type: 1 };
    let Err(err) = take_up(spec) else {
        panic!("expected failure");
    };
    assert_eq!(err.message(), "invalid hostname `no spaces`");

    let spec = QuerySpec { host: "example.com.".to_string(), record_type: 1 };
    let Ok((name, dispatch)) = take_up(spec) else {
        panic!("usable hostname");
    };
    assert_eq!(name.to_ascii(), "example.com.");
    assert_eq!(dispatch.stage(), Stage::Pace);
}

#[test]
fn a_query_is_paced_reserved_sent_and_settled() {
    let mut pool = pool(2);
    let mut limiter = RateLimiter::new(10 * ONE_QPS);
    let mut first = Dispatch::new();
    let mut second = Dispatch::new();

    assert!(matches!(run(&mut first, &mut pool, &mut limiter, 0), Action::Query(0)));
    assert_eq!(first.stage(), Stage::InFlight(0));
    assert_eq!(pool.resolver(0).counters().attempted, 1);
    assert_eq!(pool.resolver(0).in_flight(), 1);

    // The second has to wait for its slot under the global rate.
    let Action::Sleep(wait) = run(&mut second, &mut pool, &mut limiter, 0) else {
        panic!("must be paced");
    };
    assert_eq!(wait, Duration::from_millis(100));
    assert!(matches!(run(&mut second, &mut pool, &mut limiter, 100 * MS), Action::Query(1)));

    let received = first.received(
        &mut pool,
        Exchange::Answered(answer("whole", false, 2)),
        rtt(),
        100 * MS,
    );
    assert!(matches!(received, Received::Finished(Ok(message)) if message == "whole"));
    assert_eq!(first.stage(), Stage::Settled);
    assert_eq!(pool.resolver(0).in_flight(), 0);
    assert_eq!(pool.resolver(0).counters().answered, 1);
    assert_eq!(pool.resolver(1).in_flight(), 1, "the other query still holds its permit");
}

#[test]
fn a_resolvers_own_pacing_is_respected() {
    let mut pool = pool(1);
    let mut limiter = RateLimiter::new(UNLIMITED_QPS);
    pool.resolver_mut(0).set_rate(ONE_QPS);
    pool.resolver_mut(0).acquire_rate(0);

    let mut dispatch = Dispatch::new();
    let Action::Sleep(wait) = run(&mut dispatch, &mut pool, &mut limiter, 0) else {
        panic!("must be paced");
    };
    assert_eq!(wait, Duration::from_secs(1));
    assert_eq!(dispatch.stage(), Stage::Send(0));
    assert_eq!(pool.resolver(0).in_flight(), 1, "the permit is held meanwhile");
}

#[test]
fn a_pool_without_resolvers_refuses() {
    let mut limiter = RateLimiter::new(UNLIMITED_QPS);
    let mut dispatch = Dispatch::new();
    let action = run(&mut dispatch, &mut pool(0), &mut limiter, 0);
    assert!(matches!(action, Action::Refuse));
    assert_eq!(dispatch.stage(), Stage::Settled);
}

#[test]
fn queries_in_flight_are_held_to_max_concurrency() {
    let resolvers: Vec<Endpoint> = (0..10).map(endpoint).collect();
    let capped = BlastDNSConfig { max_concurrency: 3, ..config() };
    let mut pool = ResolverPool::new(&resolvers, &capped);
    let mut limiter = RateLimiter::new(UNLIMITED_QPS);
    let mut dispatches: Vec<Dispatch> = (0..8).map(|_| Dispatch::new()).collect();
    let mut sent = 0;
    for dispatch in &mut dispatches {
        match run(dispatch, &mut pool, &mut limiter, 0) {
            Action::Query(_) => sent += 1,
            Action::AwaitPlace => assert_eq!(dispatch.stage(), Stage::Enter),
            action => panic!("{action:?}"),
        }
    }
    assert_eq!(sent, 3, "there are resolvers for all of them");
    assert_eq!(pool.under_way(), 3);

    // One ends, and another takes its place.
    dispatches[0].received(&mut pool, Exchange::Answered(answer("", false, 0)), rtt(), 0);
    assert_eq!(pool.under_way(), 2);
    assert!(matches!(run(&mut dispatches[5], &mut pool, &mut limiter, 0), Action::Query(_)));
    let in_flight: usize = (0..10).map(|k| pool.resolver(k).in_flight()).sum();
    assert_eq!(in_flight, 3);
}

#[test]
fn a_refused_query_gives_its_place_back() {
    let mut pool = ResolverPool::new(
        &Vec::new(),
        &BlastDNSConfig { max_concurrency: 1, ..config() },
    );
    let mut limiter = RateLimiter::new(UNLIMITED_QPS);
    for _ in 0..3 {
        let action = run(&mut Dispatch::new(), &mut pool, &mut limiter, 0);
        assert!(matches!(action, Action::Refuse));
        assert_eq!(pool.under_way(), 0);
    }
}

#[test]
fn a_saturated_pool_is_waited_for() {
    let mut pool = pool(1);
    let mut limiter = RateLimiter::new(UNLIMITED_QPS);
    let mut first = Dispatch::new();
    let mut second = Dispatch::new();
    run(&mut first, &mut pool, &mut limiter, 0);
    assert!(matches!(
        run(&mut second, &mut pool, &mut limiter, 0),
        Action::AwaitPermit(0)
    ));
    // Nothing has come free.
    assert!(matches!(
        run(&mut second, &mut pool, &mut limiter, 0),
        Action::AwaitPermit(0)
    ));
    first.received(&mut pool, Exchange::Answered(answer("", false, 0)), rtt(), 0);
    assert!(matches!(run(&mut second, &mut pool, &mut limiter, 0), Action::Query(0)));
    assert_eq!(pool.resolver(0).counters().empty, 1);
}

#[test]
fn a_benched_pool_is_slept_on() {
    let mut pool = pool(1);
    let mut limiter = RateLimiter::new(UNLIMITED_QPS);
    let mut first = Dispatch::new();
    run(&mut first, &mut pool, &mut limiter, 0);
    let lost: Received<()> = first.received(&mut pool, Exchange::Elapsed, rtt(), 10 * MS);
    let Received::Finished(Err(err)) = lost else {
        panic!("the query is lost");
    };
    assert_eq!(err.message(), "resolver 10.0.0.0:53 query timed out");
    assert_eq!(pool.resolver(0).counters().timeout, 1);

    let mut second = Dispatch::new();
    let Action::Sleep(wait) = run(&mut second, &mut pool, &mut limiter, 20 * MS) else {
        panic!("must wait for the sentence to lapse");
    };
    assert_eq!(wait, Duration::from_millis(40));
    assert!(matches!(run(&mut second, &mut pool, &mut limiter, 60 * MS), Action::Query(0)));
}

#[test]
fn permits_are_accounted_for_whatever_the_order() {
    let mut pool = pool(3);
    let mut limiter = RateLimiter::new(UNLIMITED_QPS);
    let mut dispatches: Vec<Dispatch> = (0..5).map(|_| Dispatch::new()).collect();
    let mut ended = 0;
    for round in 0..40 {
        let d = round % dispatches.len();
        match dispatches[d].stage() {
            Stage::InFlight(_) => {
                dispatches[d].received::<()>(&mut pool, Exchange::Elapsed, rtt(), 0);
                ended += 1;
            }
            Stage::Settled => {}
            _ => {
                dispatches[d].step(&mut pool, &mut limiter, 0);
            }
        }
        for k in 0..3 {
            let held = dispatches
                .iter()
                .filter(|dispatch| match dispatch.stage() {
                    Stage::PaceResolver(i) | Stage::Send(i) | Stage::InFlight(i) => i == k,
                    _ => false,
                })
                .count();
            assert_eq!(pool.resolver(k).in_flight(), held);
        }
    }
    // Every resolver is benched by then, and the other queries wait.
    assert_eq!(ended, 3);
}

#[test]
fn a_truncated_response_is_asked_for_again() {
    let mut pool = pool(1);
    let mut limiter = RateLimiter::new(UNLIMITED_QPS);
    let mut dispatch = Dispatch::new();
    run(&mut dispatch, &mut pool, &mut limiter, 0);

    let received =
        dispatch.received(&mut pool, Exchange::Answered(answer("part", true, 1)), rtt(), 0);
    let Received::Refetch(partial) = received else {
        panic!("must be refetched");
    };
    assert_eq!(dispatch.stage(), Stage::InFlight(0));
    assert_eq!(pool.resolver(0).in_flight(), 1, "the query has not ended");

    let full = refetch_over_tcp(Exchange::Answered(answer("whole", false, 8)));
    let message = dispatch.refetched(&mut pool, partial, full, rtt(), 0);
    assert_eq!(message, "whole");
    assert_eq!(dispatch.stage(), Stage::Settled);
    assert_eq!(pool.resolver(0).in_flight(), 0);
    let stats = pool.resolver(0).stats();
    assert_eq!((stats.attempted, stats.answered, stats.truncated), (1, 1, 1));
}

#[test]
fn a_partial_answer_beats_nothing() {
    let mut health = health();
    let failed: Option<Answer<String>> =
        refetch_over_tcp(Exchange::Failed(ClientError::from(ClientErrorKind::Message("busy"))));
    assert!(failed.is_none());
    assert!(refetch_over_tcp::<String>(Exchange::NotConnected(not_connected())).is_none());
    assert!(refetch_over_tcp::<String>(Exchange::Elapsed).is_none());
    let message = refetched(&mut health, answer("part", true, 1), failed, rtt(), 0);
    assert_eq!(message, "part");
    assert_eq!(health.counters().answered, 1);
}

#[test]
fn failures_are_counted_for_what_they_are() {
    let cases = [
        (Exchange::<()>::Elapsed, (1, 0), "resolver 10.0.0.7:53 query timed out"),
        (
            Exchange::Failed(ClientError::from(ClientErrorKind::Timeout)),
            (1, 0),
            "resolver 10.0.0.7:53 query failed",
        ),
        (
            Exchange::Failed(ClientError::from(ClientErrorKind::Message("busy"))),
            (0, 1),
            "resolver 10.0.0.7:53 query failed",
        ),
        (
            Exchange::NotConnected(not_connected()),
            (0, 1),
            "failed to bind socket for 10.0.0.7:53: Address already in use (os error 98)",
        ),
    ];
    for (exchange, (timeout, error), message) in cases {
        let mut health = health();
        health.record_dispatch();
        let Received::Finished(Err(err)) = query(&mut health, exchange, rtt(), 0) else {
            panic!("the query is lost");
        };
        assert_eq!(err.message(), message);
        let stats = health.stats();
        assert_eq!((stats.timeout, stats.error), (timeout, error));
        assert_eq!(stats.answered + stats.empty + stats.timeout + stats.error, stats.attempted);
    }
}

#[test]
fn a_deadline_that_passed_is_named() {
    let deadline = Duration::from_secs(9);
    let Err(err) = health().query_within(Exchange::<()>::Elapsed, deadline) else {
        panic!("expected failure");
    };
    assert!(matches!(
        err,
        BlastDNSError::QueryTimedOut { resolver, timeout }
            if resolver == endpoint(7) && timeout == deadline
    ));
    let Err(err) = health().query_bounded(Exchange::<()>::Elapsed) else {
        panic!("expected failure");
    };
    assert!(matches!(
        err,
        BlastDNSError::QueryTimedOut { timeout, .. } if timeout == Duration::from_millis(300)
    ));
}

#[test]
fn a_probe_asks_for_the_root_nameservers() {
    let query = probe_query();
    assert_eq!(query.host, ".");
    assert_eq!(query.record_type, u16::from(hickory_client::proto::rr::RecordType::NS));
    let Ok((name, _dispatch)) = take_up(query) else {
        panic!("usable hostname");
    };
    assert_eq!(name, hickory_client::proto::rr::Name::root());
}

#[test]
fn a_resolver_that_fails_its_probe_is_out() {
    let mut health = health();
    assert!(health.probe(Exchange::Answered(answer("", false, 0))));
    assert!(health.is_active());
    assert!(!health.probe(Exchange::<()>::Elapsed));
    assert!(!health.is_active());

    let source = ProtoError::from(ProtoErrorKind::Busy);
    assert_eq!(
        health.setup_failed(source).message(),
        "failed to initialize resolver 10.0.0.7:53"
    );
}

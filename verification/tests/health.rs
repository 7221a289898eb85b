use std::time::Duration;

use blastdns::address::{Endpoint, IpAddress};
use blastdns::config::BlastDNSConfig;
use blastdns::health::ResolverHealth;
use blastdns::rate::{ONE_QPS, UNLIMITED_QPS};

const MS: u64 = 1_000_000;

fn addr(n: u8) -> Endpoint {
    Endpoint { ip: IpAddress::V4(u32::from_be_bytes([127, 0, 0, n])), port: 53, scope_id: 0 }
}

fn config(max_inflight: usize, purgatory_threshold: usize) -> BlastDNSConfig {
    BlastDNSConfig {
        max_inflight_per_resolver: max_inflight,
        purgatory_threshold,
        purgatory_sentence: Duration::from_millis(50),
        ..Default::default()
    }
}

fn health(max_inflight: usize, purgatory_threshold: usize) -> ResolverHealth {
    ResolverHealth::new(addr(1), &config(max_inflight, purgatory_threshold))
}

#[test]
fn inflight_permits_cap_per_resolver_concurrency() {
    let mut health = health(2, 10);

    let first = health.try_acquire();
    let second = health.try_acquire();
    assert!(first);
    assert!(second);
    assert_eq!(health.in_flight(), 2);
    assert!(
        !health.try_acquire(),
        "a resolver must never exceed max_inflight_per_resolver"
    );

    health.release();
    assert_eq!(health.in_flight(), 1);
    assert!(health.try_acquire(), "permit should be reusable");
}

#[test]
fn a_cap_of_zero_allows_one() {
    let mut health = health(0, 10);
    assert!(health.try_acquire());
    assert!(!health.try_acquire());
}

#[test]
fn purgatory_engages_at_the_threshold() {
    let mut health = health(1, 3);

    health.record_error(true, 0);
    health.record_error(true, 0);
    assert!(!health.is_benched(0), "benched before reaching the threshold");

    health.record_error(true, 0);
    assert!(health.is_benched(0), "threshold reached but not benched");
    assert_eq!(health.stats().purgatory_entries, 1);

    assert!(!health.is_benched(80 * MS), "sentence should lapse");
    assert_eq!(health.benched_until_ns(), 50 * MS);
    assert!(health.is_benched(50 * MS - 1));
    assert!(!health.is_benched(50 * MS));
}

#[test]
fn a_second_sentence_costs_another_full_threshold() {
    let mut health = health(1, 3);

    for _ in 0..3 {
        health.record_error(true, 0);
    }
    assert!(health.is_benched(0), "threshold reached but not benched");
    let now_ns = 80 * MS;

    // One more failure must not re-bench: a sentence per failure would pace an
    // all-benched pool at one query per sentence.
    health.record_error(true, now_ns);
    assert!(!health.is_benched(now_ns), "single failure re-armed the sentence");
    assert_eq!(health.stats().purgatory_entries, 1);

    health.record_error(true, now_ns);
    health.record_error(true, now_ns);
    assert!(
        health.is_benched(now_ns),
        "threshold reached again but not benched"
    );
    assert_eq!(health.stats().purgatory_entries, 2);
}

#[test]
fn responses_relieve_error_pressure() {
    let mut health = health(1, 3);

    health.record_error(true, 0);
    health.record_error(true, 0);
    health.record_response(Duration::from_millis(10), true, 0);
    // The pressure is gone, so the next two do not bench it.
    health.record_error(true, 0);
    assert!(!health.is_benched(0));

    let stats = health.stats();
    assert_eq!(stats.answered, 1);
    assert_eq!(stats.timeout, 3);

    health.record_error(true, 0);
    assert!(!health.is_benched(0), "only two errors in a row");
    assert_eq!(health.stats().purgatory_entries, 0);

    health.record_error(true, 0);
    assert!(health.is_benched(0), "three errors in a row");
    assert_eq!(health.stats().purgatory_entries, 1);
}

#[test]
fn an_empty_answer_relieves_pressure_as_a_real_one_does() {
    for had_answers in [false, true] {
        let mut health = health(1, 3);
        health.record_error(true, 0);
        health.record_error(false, 0);
        health.record_response(Duration::from_millis(10), had_answers, 0);
        let stats = health.stats();
        assert_eq!(stats.answered, had_answers as u64);
        assert_eq!(stats.empty, !had_answers as u64);
        assert_eq!((stats.attempted, stats.timeout, stats.error), (0, 1, 1));

        health.record_error(true, 0);
        assert!(!health.is_benched(0));
        assert_eq!(health.stats().purgatory_entries, 0);
    }
}

#[test]
fn an_error_without_a_sentence_needs_no_room_on_the_clock() {
    let mut lenient = health(1, 2);
    assert!(lenient.can_record_error(u64::MAX), "the first error earns nothing");
    lenient.record_error(true, u64::MAX);
    assert!(!lenient.can_record_error(u64::MAX), "the second would outlast the clock");
    assert!(lenient.can_record_error(u64::MAX - 50 * MS));
    assert!(!lenient.can_record_error(u64::MAX - 50 * MS + 1));

    let mut never = health(1, 0);
    assert!(never.can_record_error(u64::MAX));
    never.record_error(true, u64::MAX);
    assert_eq!(never.stats().timeout, 1);
}

#[test]
fn stats_account_for_every_dispatch() {
    let mut health = health(1, 0);

    for _ in 0..4 {
        health.record_dispatch();
    }
    health.record_response(Duration::from_millis(5), true, 0);
    health.record_response(Duration::from_millis(5), false, 0);
    health.record_error(true, 0);
    health.record_error(false, 0);

    let s = health.stats();
    assert_eq!(s.attempted, 4);
    assert_eq!(s.answered + s.empty + s.timeout + s.error, s.attempted);
    assert_eq!((s.answered, s.empty, s.timeout, s.error), (1, 1, 1, 1));
    assert_eq!(s.resolver, "127.0.0.1:53");
    assert_eq!(s.truncated, 0);
    health.record_truncated();
    assert_eq!(health.stats().truncated, 1);
}

#[test]
fn rtt_tracks_mean_and_minimum() {
    let mut health = health(1, 0);

    health.record_response(Duration::from_millis(100), true, 0);
    assert_eq!(health.stats().rtt_min_us, 100_000);
    assert_eq!(health.stats().rtt_mean_us, 100_000);

    health.record_response(Duration::from_millis(20), true, 0);
    assert_eq!(health.stats().rtt_min_us, 20_000, "minimum should drop");
    let mean = health.stats().rtt_mean_us;
    assert!(
        mean < 100_000 && mean > 20_000,
        "mean {mean} should move toward the new sample without jumping to it"
    );
    // Seven eighths of the old mean and one eighth of the sample.
    assert_eq!(mean, 90_000);
}

#[test]
fn a_stale_minimum_is_replaced() {
    let mut health = health(1, 0);
    let window_ns = 30_000 * MS;

    health.record_response(Duration::from_millis(20), true, 0);
    health.record_response(Duration::from_millis(100), true, window_ns);
    assert_eq!(health.stats().rtt_min_us, 20_000, "the window has not lapsed yet");

    health.record_response(Duration::from_millis(100), true, window_ns + 1);
    assert_eq!(health.stats().rtt_min_us, 100_000);
}

#[test]
fn a_sample_is_at_least_a_microsecond() {
    let mut health = health(1, 0);
    health.record_response(Duration::from_nanos(3), true, 0);
    assert_eq!(health.stats().rtt_min_us, 1);
    assert_eq!(health.stats().rtt_mean_us, 1);
    health.record_response(Duration::from_nanos(3), true, 0);
    assert_eq!(health.stats().rtt_mean_us, 1);
}

#[test]
fn purgatory_can_be_turned_off() {
    let mut without_threshold = health(1, 0);
    let mut without_sentence = ResolverHealth::new(
        addr(1),
        &BlastDNSConfig { purgatory_sentence: Duration::from_nanos(0), ..config(1, 1) },
    );
    for _ in 0..100 {
        without_threshold.record_error(true, 0);
        without_sentence.record_error(false, 0);
    }
    assert!(!without_threshold.is_benched(0));
    assert!(!without_sentence.is_benched(0));
    assert_eq!(without_sentence.stats().purgatory_entries, 0);
    assert_eq!(without_sentence.stats().error, 100);
}

#[test]
fn a_failed_probe_is_for_life() {
    let mut health = health(1, 3);
    assert!(health.is_active());
    health.record_probe(true);
    assert!(health.is_active());
    health.record_probe(false);
    assert!(!health.is_active());
    health.record_probe(true);
    health.record_response(Duration::from_millis(1), true, 0);
    assert!(!health.is_active());
}

#[test]
fn the_probe_deadline_has_a_floor() {
    assert_eq!(health(1, 3).probe_deadline(), Duration::from_secs(2));
    let slow = ResolverHealth::new(
        addr(1),
        &BlastDNSConfig { request_timeout: Duration::from_secs(5), ..config(1, 3) },
    );
    assert_eq!(slow.probe_deadline(), Duration::from_secs(5));
    assert_eq!(slow.request_timeout(), Duration::from_secs(5));
}

#[test]
fn a_rate_shows_only_while_it_limits() {
    let mut health = health(1, 3);
    assert_eq!(health.rate(), UNLIMITED_QPS);
    assert_eq!(health.stats().rate_qps, None);
    health.set_rate(50 * ONE_QPS);
    assert_eq!(health.stats().rate_qps, Some(50 * ONE_QPS));
    assert_eq!(health.acquire_rate(0), 0);
    assert_eq!(health.acquire_rate(0), 20 * MS);
    health.set_rate(UNLIMITED_QPS);
    assert_eq!(health.stats().rate_qps, None);
}

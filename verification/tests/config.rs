use std::time::Duration;

use blastdns::config::{BlastDNSConfig, BlastDNSConfigWire};
use blastdns::rate::ONE_QPS;

fn wire() -> BlastDNSConfigWire {
    BlastDNSConfigWire {
        threads_per_resolver: 5,
        max_inflight_per_resolver: 3,
        max_concurrency: 77,
        rate_limit: Some(12 * ONE_QPS),
        adaptive: false,
        resolver_probe: true,
        persistent_socket: true,
        request_timeout_ms: 250,
        max_retries: 4,
        purgatory_threshold: 6,
        purgatory_sentence_ms: 900,
        cache_capacity: 11,
        cache_min_ttl_secs: 2,
        cache_max_ttl_secs: 60,
    }
}

#[test]
fn the_default_is_what_it_says() {
    let config = BlastDNSConfig::default();
    assert_eq!(config.threads_per_resolver, 2);
    assert_eq!(config.max_inflight_per_resolver, 2);
    assert_eq!(config.max_concurrency, 256);
    assert_eq!(config.rate_limit, None);
    assert!(config.adaptive);
    assert!(!config.resolver_probe);
    assert!(!config.persistent_socket);
    assert_eq!(config.request_timeout, Duration::from_millis(1000));
    assert_eq!(config.max_retries, 10);
    assert_eq!(config.purgatory_threshold, 10);
    assert_eq!(config.purgatory_sentence, Duration::from_millis(1000));
    assert_eq!(config.cache_capacity, 10000);
    assert_eq!(config.cache_min_ttl, Duration::from_secs(10));
    assert_eq!(config.cache_max_ttl, Duration::from_secs(86400));
}

#[test]
fn the_wire_is_carried_over() {
    let config = BlastDNSConfig::from(wire());
    assert_eq!(config.threads_per_resolver, 5);
    assert_eq!(config.max_inflight_per_resolver, 3);
    assert_eq!(config.max_concurrency, 77);
    assert_eq!(config.rate_limit, Some(12 * ONE_QPS));
    assert!(!config.adaptive);
    assert!(config.resolver_probe);
    assert!(config.persistent_socket);
    assert_eq!(config.request_timeout, Duration::from_millis(250));
    assert_eq!(config.max_retries, 4);
    assert_eq!(config.purgatory_threshold, 6);
    assert_eq!(config.purgatory_sentence, Duration::from_millis(900));
    assert_eq!(config.cache_capacity, 11);
    assert_eq!(config.cache_min_ttl, Duration::from_secs(2));
    assert_eq!(config.cache_max_ttl, Duration::from_secs(60));
}

#[test]
fn zeros_on_the_wire_are_raised() {
    let config = BlastDNSConfig::from(BlastDNSConfigWire {
        threads_per_resolver: 0,
        max_inflight_per_resolver: 0,
        max_concurrency: 0,
        rate_limit: Some(0),
        request_timeout_ms: 0,
        max_retries: 0,
        purgatory_threshold: 0,
        purgatory_sentence_ms: 0,
        ..wire()
    });
    assert_eq!(config.threads_per_resolver, 1);
    assert_eq!(config.max_inflight_per_resolver, 1);
    assert_eq!(config.max_concurrency, 1);
    assert_eq!(config.rate_limit, None);
    assert_eq!(config.request_timeout, Duration::from_millis(1));
    assert_eq!(config.max_retries, 0);
    assert_eq!(config.purgatory_threshold, 0);
    assert_eq!(config.purgatory_sentence, Duration::from_millis(1));
}

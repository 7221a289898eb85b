use std::time::Duration;

use blastdns::address::{Endpoint, IpAddress};
use blastdns::config::BlastDNSConfig;
use blastdns::pool::{Reserve, ResolverPool};
use blastdns::worker::{Answer, Exchange};

const MS: u64 = 1_000_000;

fn addr(n: u8) -> Endpoint {
    Endpoint { ip: IpAddress::V4(u32::from_be_bytes([127, 0, 0, n])), port: 53, scope_id: 0 }
}

fn config(max_inflight: usize, purgatory_threshold: usize) -> BlastDNSConfig {
    BlastDNSConfig {
        max_inflight_per_resolver: max_inflight,
        purgatory_threshold,
        purgatory_sentence: Duration::from_millis(50),
        ..Default::default()
    }
}

fn pool(addrs: &[Endpoint], config: &BlastDNSConfig) -> ResolverPool {
    ResolverPool::new(&addrs.to_vec(), config)
}

fn reserved(pool: &mut ResolverPool, now_ns: u64) -> usize {
    match pool.reserve(now_ns) {
        Reserve::Reserved(k) => k,
        outcome => panic!("no reservation: {outcome:?}"),
    }
}

#[test]
fn reserve_rotates_across_resolvers() {
    let mut pool = pool(&[addr(1), addr(2), addr(3)], &config(1, 10));

    let a = reserved(&mut pool, 0);
    let b = reserved(&mut pool, 0);
    let c = reserved(&mut pool, 0);

    let mut picked = vec![a, b, c];
    picked.sort();
    let picked: Vec<Endpoint> = picked.into_iter().map(|k| pool.resolver(k).addr()).collect();
    assert_eq!(
        picked,
        [addr(1), addr(2), addr(3)],
        "with one permit each, three reservations must use three resolvers"
    );
}

#[test]
fn reserve_skips_benched_resolvers() {
    let mut pool = pool(&[addr(1), addr(2)], &config(1, 1));

    // Bench the first resolver by driving it past the threshold.
    let first = reserved(&mut pool, 0);
    let benched = pool.resolver(first).addr();
    pool.resolver_mut(first).record_error(true, 0);
    pool.release(first);

    for _ in 0..4 {
        let k = reserved(&mut pool, 0);
        assert_ne!(
            pool.resolver(k).addr(),
            benched,
            "a benched resolver must not be selected"
        );
        pool.release(k);
    }
}

#[test]
fn reserve_returns_none_for_an_empty_pool() {
    let mut pool = pool(&[], &config(1, 10));
    assert_eq!(pool.reserve(0), Reserve::NoneActive);
    assert_eq!(pool.len(), 0);
}

#[test]
fn an_idle_pool_goes_round() {
    let mut pool = pool(&[addr(1), addr(2), addr(3)], &config(1, 10));
    for round in 0..7 {
        let k = reserved(&mut pool, 0);
        assert_eq!(k, round % 3);
        pool.release(k);
    }
}

#[test]
fn a_saturated_pool_names_the_resolver_to_wait_for() {
    let mut pool = pool(&[addr(1), addr(2)], &config(1, 10));
    reserved(&mut pool, 0);
    reserved(&mut pool, 0);
    assert_eq!(pool.reserve(0), Reserve::Saturated(0));
    assert_eq!(pool.reserve(0), Reserve::Saturated(1));

    assert!(!pool.claim(1, 0), "there is still no permit");
    pool.release(1);
    assert!(pool.claim(1, 0));
    assert_eq!(pool.resolver(1).in_flight(), 1);
}

#[test]
fn a_claim_is_refused_where_the_resolver_was_benched_meanwhile() {
    let mut pool = pool(&[addr(1)], &config(1, 1));
    reserved(&mut pool, 0);
    assert_eq!(pool.reserve(0), Reserve::Saturated(0));
    pool.resolver_mut(0).record_error(true, 0);
    pool.release(0);
    assert!(!pool.claim(0, 0));
    assert_eq!(pool.resolver(0).in_flight(), 0);
    assert!(pool.claim(0, 50 * MS));
}

#[test]
fn an_all_benched_pool_waits_for_the_first_release() {
    let mut pool = pool(&[addr(1), addr(2)], &config(1, 1));
    pool.resolver_mut(0).record_error(true, 10 * MS);
    pool.resolver_mut(1).record_error(true, 0);
    assert_eq!(pool.reserve(10 * MS), Reserve::AllBenched);
    assert_eq!(
        pool.sleep_until_first_eligible(10 * MS),
        Some(Duration::from_millis(40))
    );
    assert_eq!(pool.sleep_until_first_eligible(50 * MS), None);
    assert_eq!(reserved(&mut pool, 50 * MS), 1);
}

fn probed(answered: &[bool]) -> Vec<Exchange<()>> {
    let reply = || Answer { message: (), truncated: false, answers: 0 };
    answered
        .iter()
        .map(|answered| {
            if *answered {
                Exchange::Answered(reply())
            } else {
                Exchange::Elapsed
            }
        })
        .collect()
}

#[test]
fn a_probe_deactivates_those_that_did_not_answer() {
    let mut pool = pool(&[addr(1), addr(2), addr(3)], &config(4, 10));
    assert_eq!(pool.probe(probed(&[false, true, false])), 1);
    for _ in 0..4 {
        assert_eq!(reserved(&mut pool, 0), 1);
    }
    assert_eq!(pool.probe(probed(&[true, false, true])), 2);
    assert_eq!(pool.reserve(0), Reserve::NoneActive);
    assert_eq!(pool.sleep_until_first_eligible(0), None);
}

#[test]
fn the_pool_lets_in_no_more_than_max_concurrency() {
    let capped = BlastDNSConfig { max_concurrency: 2, ..config(4, 10) };
    let mut small = pool(&[addr(1), addr(2)], &capped);
    assert!(small.enter());
    assert!(small.enter());
    assert!(!small.enter());
    assert_eq!(small.under_way(), 2);
    small.leave();
    assert!(small.enter());

    let none = BlastDNSConfig { max_concurrency: 0, ..config(4, 10) };
    let mut single = pool(&[addr(1)], &none);
    assert!(single.enter());
    assert!(!single.enter());
}

#[test]
fn live_reservations_never_exceed_the_cap() {
    let mut pool = pool(&[addr(1), addr(2), addr(3)], &config(2, 3));
    let mut live: Vec<usize> = Vec::new();
    for round in 0u64..60 {
        match round % 4 {
            2 if !live.is_empty() => {
                let k = live.remove(0);
                pool.release(k);
            }
            3 => pool.resolver_mut((round % 3) as usize).record_error(true, round * MS),
            _ => {
                if let Reserve::Reserved(k) = pool.reserve(round * MS) {
                    assert!(!pool.resolver(k).is_benched(round * MS));
                    live.push(k);
                }
            }
        }
        for k in 0..3 {
            let held = live.iter().filter(|held| **held == k).count();
            assert_eq!(pool.resolver(k).in_flight(), held);
            assert!(held <= 2);
        }
    }
}

#[test]
fn a_pass_is_determined_by_the_pool() {
    let mut one = pool(&[addr(1), addr(2)], &config(1, 10));
    let mut other = pool(&[addr(1), addr(2)], &config(1, 10));
    for _ in 0..5 {
        assert_eq!(one.reserve(7), other.reserve(7));
    }
}

#[test]
fn a_released_reservation_leaves_no_trace() {
    let mut pool = pool(&[addr(1), addr(2)], &config(2, 10));
    let before: Vec<usize> = (0..2).map(|k| pool.resolver(k).in_flight()).collect();
    let k = reserved(&mut pool, 0);
    assert_eq!(pool.resolver(k).in_flight(), 1);
    pool.release(k);
    let after: Vec<usize> = (0..2).map(|k| pool.resolver(k).in_flight()).collect();
    assert_eq!(before, after);
}

#[test]
fn pool_stats_list_every_resolver() {
    let mut pool = pool(&[addr(1), addr(2)], &config(2, 10));
    pool.resolver_mut(1).record_dispatch();
    let stats = pool.stats();
    assert_eq!(stats.len(), 2);
    assert_eq!(stats[0].attempted, 0);
    assert_eq!(stats[1].attempted, 1);
    assert_eq!(stats[0].resolver, "127.0.0.1:53");
    assert_eq!(stats[1].resolver, "127.0.0.2:53");
}

use std::time::Duration;

use blastdns::address::{Endpoint, IpAddress};
use blastdns::client::Outcomes;
use blastdns::config::BlastDNSConfig;
use blastdns::controller::{AdaptiveController, EDGE_TTL_NS};
use blastdns::pool::ResolverPool;
use blastdns::rate::{NanoQps, ONE_QPS, UNLIMITED_QPS};
use blastdns::RateLimiter;

/// Fraction of a discovered edge to operate at.
const RETREAT: f64 = 0.85;

fn qps(rate: NanoQps) -> f64 {
    rate as f64 / ONE_QPS as f64
}

fn pool_of(addrs: Vec<[u8; 4]>) -> ResolverPool {
    let config = BlastDNSConfig { purgatory_threshold: 0, ..Default::default() };
    let resolvers: Vec<Endpoint> = addrs
        .into_iter()
        .map(|octets| {
            let ip = IpAddress::V4(u32::from_be_bytes(octets));
            Endpoint { ip, port: 53, scope_id: 0 }
        })
        .collect();
    ResolverPool::new(&resolvers, &config)
}

fn pool(count: u8) -> ResolverPool {
    pool_of((1..=count).map(|n| [127, 0, 0, n]).collect())
}

fn controller(count: usize, ceiling: NanoQps) -> (AdaptiveController, RateLimiter, Outcomes) {
    (
        AdaptiveController::new(count, ceiling),
        RateLimiter::new(ceiling),
        Outcomes::default(),
    )
}

/// Record `completed` finished queries, `failed` of which returned nothing even after
/// retries.
fn finish(outcomes: &mut Outcomes, completed: u64, failed: u64) {
    outcomes.completed += completed;
    outcomes.failed += failed;
}

/// Drive `attempted` queries through a resolver, `lost` of them failing.
fn drive(pool: &mut ResolverPool, k: usize, attempted: u64, lost: u64) {
    for i in 0..attempted {
        pool.resolver_mut(k).record_dispatch();
        if i < lost {
            pool.resolver_mut(k).record_error(true, 0);
        } else {
            pool.resolver_mut(k).record_response(Duration::from_millis(10), true, 0);
        }
    }
}

#[test]
fn clean_traffic_leaves_pacing_unlimited() {
    let mut pool = pool(1);
    let (mut c, mut global, outcomes) = controller(1, UNLIMITED_QPS);

    drive(&mut pool, 0, 100, 0);
    c.tick(&mut pool, &mut global, &outcomes, Duration::from_secs(1), 0);

    assert_eq!(
        pool.resolver(0).rate(),
        UNLIMITED_QPS,
        "no loss means no throttling"
    );
}

#[test]
fn loss_retreats_to_the_configured_fraction_of_the_edge() {
    let mut pool = pool(1);
    let (mut c, mut global, outcomes) = controller(1, UNLIMITED_QPS);

    // 200 queries in one second with 10% loss: the edge is 200 QPS.
    drive(&mut pool, 0, 200, 20);
    c.tick(&mut pool, &mut global, &outcomes, Duration::from_secs(1), 0);

    let rate = qps(pool.resolver(0).rate());
    let expected = RETREAT * 200.0;
    assert!(
        (rate - expected).abs() / expected < 0.05,
        "expected ~{expected} QPS (85% of the 200 QPS edge), got {rate}"
    );
}

#[test]
fn sustained_loss_ratchets_down() {
    let mut pool = pool(1);
    let (mut c, mut global, outcomes) = controller(1, UNLIMITED_QPS);

    drive(&mut pool, 0, 200, 20);
    c.tick(&mut pool, &mut global, &outcomes, Duration::from_secs(1), 0);
    let first = pool.resolver(0).rate();

    // Loss continues at a lower delivered rate, so the edge moves down too.
    drive(&mut pool, 0, 100, 20);
    c.tick(&mut pool, &mut global, &outcomes, Duration::from_secs(1), 0);
    let second = pool.resolver(0).rate();

    assert!(
        second < first,
        "continued loss should lower the rate further: {first} then {second}"
    );
}

#[test]
fn a_single_bad_resolver_does_not_cut_the_global_rate() {
    let mut pool = pool(5);
    let (mut c, mut global, outcomes) = controller(5, UNLIMITED_QPS);

    // One resolver is losing badly, four are clean.
    drive(&mut pool, 0, 100, 50);
    for k in 1..5 {
        drive(&mut pool, k, 100, 0);
    }
    c.tick(&mut pool, &mut global, &outcomes, Duration::from_secs(1), 0);

    assert!(
        pool.resolver(0).rate() < UNLIMITED_QPS,
        "the bad resolver should be throttled"
    );
    for k in 1..5 {
        assert_eq!(pool.resolver(k).rate(), UNLIMITED_QPS, "and no other");
    }
    assert_eq!(
        global.rate(),
        UNLIMITED_QPS,
        "one bad resolver in five must not cut the global rate"
    );
}

#[test]
fn a_mostly_dead_pool_does_not_read_as_congestion() {
    // The common case for a large public resolver list: most entries never worked.
    // That is many broken resolvers, not us sending too fast, and retries are exactly
    // what finds the live ones.
    let mut pool = pool(10);
    let (mut c, mut global, outcomes) = controller(10, UNLIMITED_QPS);

    for _ in 0..3 {
        for k in 0..8 {
            drive(&mut pool, k, 100, 100);
        }
        for k in 8..10 {
            drive(&mut pool, k, 100, 0);
        }
        c.tick(&mut pool, &mut global, &outcomes, Duration::from_secs(1), 0);
    }

    assert_eq!(
        global.rate(),
        UNLIMITED_QPS,
        "resolvers that never worked must not cut the global rate"
    );
}

#[test]
fn recovered_failures_do_not_touch_the_global_rate() {
    // A public resolver pool refuses a few percent of attempts as a matter of course,
    // and a retry elsewhere answers them. Counting those as congestion would throttle a
    // healthy path.
    let mut pool = pool(5);
    let (mut c, mut global, mut outcomes) = controller(5, UNLIMITED_QPS);

    for _ in 0..10 {
        // Heavy per-attempt loss, but every query ultimately answered.
        for k in 0..5 {
            drive(&mut pool, k, 100, 30);
        }
        finish(&mut outcomes, 500, 0);
        c.tick(&mut pool, &mut global, &outcomes, Duration::from_millis(500), 0);
    }

    assert_eq!(
        global.rate(),
        UNLIMITED_QPS,
        "attempt failures that retries recovered from must not pace the pool"
    );
}

#[test]
fn queries_failing_outright_lower_the_global_rate() {
    let mut pool = pool(5);
    let (mut c, mut global, mut outcomes) = controller(5, UNLIMITED_QPS);

    for k in 0..5 {
        drive(&mut pool, k, 100, 0);
    }
    finish(&mut outcomes, 500, 40); // 8% could not be answered at all
    c.tick(&mut pool, &mut global, &outcomes, Duration::from_secs(1), 0);

    assert!(
        global.rate() < UNLIMITED_QPS,
        "unrecoverable loss is real evidence about the path"
    );
    // 85% of the 500 attempts in that second: one every 2352941 ns.
    assert_eq!(global.interval(), Duration::from_nanos(2_352_941));
}

#[test]
fn the_rate_recovers_once_loss_clears() {
    // Sustained congestion lowers the rate, but it has to come back, or one bad patch
    // would hobble the rest of a long scan.
    let mut pool = pool(5);
    let (mut c, mut global, mut outcomes) = controller(5, UNLIMITED_QPS);

    for _ in 0..3 {
        for k in 0..5 {
            drive(&mut pool, k, 100, 0);
        }
        finish(&mut outcomes, 500, 40);
        c.tick(&mut pool, &mut global, &outcomes, Duration::from_secs(1), 0);
    }
    let throttled = global.rate();
    assert!(throttled < UNLIMITED_QPS, "should have been paced");

    // Clean ticks: the limit climbs 25% each tick and eventually stops limiting.
    // Reaching a real-world rate takes a few ticks; dropping the limiter entirely takes
    // longer, which is why this loops a while.
    for _ in 0..80 {
        for k in 0..5 {
            drive(&mut pool, k, 100, 0);
        }
        finish(&mut outcomes, 500, 0);
        c.tick(&mut pool, &mut global, &outcomes, Duration::from_secs(1), 0);
    }

    assert_eq!(
        global.rate(),
        UNLIMITED_QPS,
        "a healthy path must end up unpaced, not merely faster"
    );
}

#[test]
fn brute_force_scale_is_still_judged() {
    // Thousands of resolvers each carrying a trickle, so no per-resolver ratio exists.
    // The global signal comes from query outcomes, which do not depend on any one
    // resolver being individually measurable.
    let mut pool = pool_of(
        (0..2000).map(|i: usize| [127, 0, (i / 256) as u8, (i % 256) as u8]).collect(),
    );
    let (mut c, mut global, mut outcomes) = controller(2000, UNLIMITED_QPS);
    let tick = Duration::from_millis(500);

    for k in 0..2000 {
        drive(&mut pool, k, 1, 0);
    }
    finish(&mut outcomes, 2000, 0);
    c.tick(&mut pool, &mut global, &outcomes, tick, 0);
    assert_eq!(global.rate(), UNLIMITED_QPS, "clean trickle, no throttling");

    for k in 0..2000 {
        drive(&mut pool, k, 1, if k % 10 == 0 { 1 } else { 0 });
    }
    finish(&mut outcomes, 2000, 200);
    c.tick(&mut pool, &mut global, &outcomes, tick, 0);

    assert!(
        global.rate() < UNLIMITED_QPS,
        "unrecoverable loss must be actionable even when no resolver is individually measurable"
    );
}

#[test]
fn a_configured_ceiling_is_never_exceeded() {
    let mut pool = pool(5);
    let ceiling = 50 * ONE_QPS;
    let (mut c, mut global, outcomes) = controller(5, ceiling);

    // Correlated loss at a delivered rate far above the ceiling.
    for k in 0..5 {
        drive(&mut pool, k, 400, 100);
    }
    c.tick(&mut pool, &mut global, &outcomes, Duration::from_secs(1), 0);

    assert!(
        global.rate() <= ceiling,
        "controller must never raise the rate above the configured cap, got {}",
        global.rate()
    );
}

#[test]
fn congestion_far_above_the_ceiling_stays_at_it() {
    let mut pool = pool(5);
    let ceiling = 50 * ONE_QPS;
    let (mut c, mut global, mut outcomes) = controller(5, ceiling);

    // The first retreat is from the 2000 QPS that were delivered, and is capped.
    for k in 0..5 {
        drive(&mut pool, k, 400, 100);
    }
    finish(&mut outcomes, 2000, 500);
    c.tick(&mut pool, &mut global, &outcomes, Duration::from_secs(1), 0);
    assert_eq!(global.rate(), ceiling);

    // The next one is from the standing limit, whatever was delivered.
    finish(&mut outcomes, 2000, 500);
    c.tick(&mut pool, &mut global, &outcomes, Duration::from_secs(1), 0);
    assert_eq!(global.interval(), Duration::from_nanos(23_529_412));

    // Recovery ends at the ceiling.
    for _ in 0..3 {
        c.tick(&mut pool, &mut global, &outcomes, Duration::from_secs(1), 0);
        assert!(global.rate() <= ceiling);
    }
    assert_eq!(global.rate(), ceiling);
}

#[test]
fn retreats_stop_at_one_query_per_second() {
    let mut pool = pool(1);
    let (mut c, mut global, mut outcomes) = controller(1, UNLIMITED_QPS);
    for _ in 0..100 {
        finish(&mut outcomes, 100, 100);
        c.tick(&mut pool, &mut global, &outcomes, Duration::from_secs(1), 0);
    }
    assert_eq!(global.rate(), ONE_QPS);
}

#[test]
fn a_resolver_is_never_paced_below_one_query_per_second() {
    let mut pool = pool(1);
    let (mut c, mut global, outcomes) = controller(1, UNLIMITED_QPS);
    // 20 queries in a hundred seconds, all lost.
    drive(&mut pool, 0, 20, 20);
    c.tick(&mut pool, &mut global, &outcomes, Duration::from_secs(100), 0);
    assert_eq!(pool.resolver(0).rate(), ONE_QPS);
}

#[test]
fn a_hundred_clean_ticks_unpace() {
    let mut pool = pool(1);
    let (mut c, mut global, mut outcomes) = controller(1, UNLIMITED_QPS);
    finish(&mut outcomes, 100, 100);
    c.tick(&mut pool, &mut global, &outcomes, Duration::from_secs(1), 0);
    assert_eq!(global.rate(), ONE_QPS);
    for _ in 0..100 {
        c.tick(&mut pool, &mut global, &outcomes, Duration::from_secs(1), 0);
    }
    assert_eq!(global.rate(), UNLIMITED_QPS);
}

#[test]
fn a_few_failures_among_few_queries_are_not_congestion() {
    let mut pool = pool(1);
    let (mut c, mut global, mut outcomes) = controller(1, UNLIMITED_QPS);

    finish(&mut outcomes, 99, 99);
    c.tick(&mut pool, &mut global, &outcomes, Duration::from_secs(1), 0);
    assert_eq!(global.rate(), UNLIMITED_QPS, "too few queries finished");

    // Two in a hundred is tolerated, and more is not.
    finish(&mut outcomes, 100, 2);
    c.tick(&mut pool, &mut global, &outcomes, Duration::from_secs(1), 0);
    assert_eq!(global.rate(), UNLIMITED_QPS);
    finish(&mut outcomes, 100, 3);
    c.tick(&mut pool, &mut global, &outcomes, Duration::from_secs(1), 0);
    assert!(global.rate() < UNLIMITED_QPS);
}

#[test]
fn an_expired_edge_releases_the_throttle() {
    let mut pool = pool(1);
    let (mut c, mut global, outcomes) = controller(1, UNLIMITED_QPS);
    let start_ns: u64 = 5_000_000_000;

    drive(&mut pool, 0, 200, 20);
    c.tick(&mut pool, &mut global, &outcomes, Duration::from_secs(1), start_ns);
    assert!(pool.resolver(0).rate() < UNLIMITED_QPS, "should be throttled");

    c.tick(
        &mut pool,
        &mut global,
        &outcomes,
        Duration::from_secs(1),
        start_ns + EDGE_TTL_NS - 1,
    );
    assert!(pool.resolver(0).rate() < UNLIMITED_QPS, "the edge is still honored");

    // Quiet period longer than the edge lifetime.
    let later_ns = start_ns + EDGE_TTL_NS + 1_000_000_000;
    c.tick(&mut pool, &mut global, &outcomes, Duration::from_secs(1), later_ns);

    assert_eq!(
        pool.resolver(0).rate(),
        UNLIMITED_QPS,
        "a stale edge must be forgotten so the controller probes upward again"
    );
}

#[test]
fn recovery_climbs_back_toward_the_target() {
    let mut pool = pool(1);
    let (mut c, mut global, outcomes) = controller(1, UNLIMITED_QPS);
    let now_ns: u64 = 0;

    drive(&mut pool, 0, 200, 20);
    c.tick(&mut pool, &mut global, &outcomes, Duration::from_secs(1), now_ns);
    let target = pool.resolver(0).rate();

    // Push it below the target, then let clean ticks bring it back.
    pool.resolver_mut(0).set_rate(target / 4);
    for _ in 0..5 {
        drive(&mut pool, 0, 100, 0);
        c.tick(&mut pool, &mut global, &outcomes, Duration::from_secs(1), now_ns);
    }

    let recovered = qps(pool.resolver(0).rate());
    let target = qps(target);
    assert!(
        recovered > target / 4.0 && recovered <= target * 1.01,
        "should climb back toward {target} without overshooting, got {recovered}"
    );
}

#[test]
fn recovery_climbs_from_any_rate() {
    let mut pool = pool(1);
    let (mut c, mut global, outcomes) = controller(1, UNLIMITED_QPS);
    drive(&mut pool, 0, 1000, 100);
    c.tick(&mut pool, &mut global, &outcomes, Duration::from_secs(1), 0);
    let target = pool.resolver(0).rate();

    // One billionth of a query per second.
    pool.resolver_mut(0).set_rate(1);
    let mut last = pool.resolver(0).rate();
    for _ in 0..200 {
        c.tick(&mut pool, &mut global, &outcomes, Duration::from_millis(500), 0);
        let rate = pool.resolver(0).rate();
        assert!(rate > last || rate == target, "{rate} after {last}");
        last = rate;
    }
    assert_eq!(last, target);
}

#[test]
fn the_global_rate_is_adjusted_from_outcomes_alone() {
    let mut c = AdaptiveController::new(0, 100 * ONE_QPS);
    let mut global = RateLimiter::new(100 * ONE_QPS);
    let mut outcomes = Outcomes::default();

    // No limit stands, and nothing failed: nothing is set.
    global.set_rate(7 * ONE_QPS);
    finish(&mut outcomes, 500, 0);
    c.adjust_global(&mut global, &outcomes, 1_000_000_000, 500);
    assert_eq!(global.interval(), RateLimiter::new(7 * ONE_QPS).interval());

    // 85% of the 40 QPS at which the loss appeared.
    finish(&mut outcomes, 100, 10);
    c.adjust_global(&mut global, &outcomes, 1_000_000_000, 40);
    assert_eq!(global.interval(), RateLimiter::new(34 * ONE_QPS).interval());

    // A quarter more, and then again, up to the ceiling.
    c.adjust_global(&mut global, &outcomes, 1_000_000_000, 40);
    assert_eq!(global.interval(), RateLimiter::new(34 * ONE_QPS * 5 / 4).interval());
    for _ in 0..10 {
        c.adjust_global(&mut global, &outcomes, 1_000_000_000, 40);
        assert!(global.rate() <= 100 * ONE_QPS && global.rate() >= ONE_QPS);
    }
    assert_eq!(global.rate(), 100 * ONE_QPS);
}

#[test]
fn a_tick_lasts_as_long_as_it_lasted() {
    let mut pool = pool(1);
    let (mut c, mut global, mut outcomes) = controller(1, UNLIMITED_QPS);
    let long = Duration::from_secs(20_000_000_000);
    for _ in 0..2 {
        drive(&mut pool, 0, 100, 100);
        finish(&mut outcomes, 100, 100);
        c.tick(&mut pool, &mut global, &outcomes, long, 0);
        assert_eq!(pool.resolver(0).rate(), ONE_QPS);
        assert_eq!(global.rate(), ONE_QPS);
    }
}

#[test]
fn a_tick_of_no_length_is_an_unbounded_rate() {
    let mut c = AdaptiveController::new(0, 100 * ONE_QPS);
    let mut global = RateLimiter::new(100 * ONE_QPS);
    let mut outcomes = Outcomes::default();
    finish(&mut outcomes, 100, 10);
    c.adjust_global(&mut global, &outcomes, 0, 40);
    assert_eq!(global.rate(), 100 * ONE_QPS, "the ceiling still holds");

    let mut c = AdaptiveController::new(0, 100 * ONE_QPS);
    c.adjust_global(&mut global, &outcomes, 0, 0);
    assert_eq!(global.rate(), ONE_QPS);
}

#[test]
fn small_samples_are_not_treated_as_signal() {
    let mut pool = pool(1);
    let (mut c, mut global, outcomes) = controller(1, UNLIMITED_QPS);

    // Below the sample floor, even total loss must not move the rate.
    drive(&mut pool, 0, 5, 5);
    c.tick(&mut pool, &mut global, &outcomes, Duration::from_secs(1), 0);

    assert_eq!(
        pool.resolver(0).rate(),
        UNLIMITED_QPS,
        "a handful of failures is not enough to conclude anything"
    );
}

/// The per-resolver in-flight cap holds a resolver to a few queries per tick, so
/// requiring enough samples within a single tick never judges one at all. The samples
/// have to carry across ticks.
#[test]
fn a_trickle_accumulates_until_it_is_judged() {
    let mut pool = pool(1);
    let (mut c, mut global, outcomes) = controller(1, UNLIMITED_QPS);
    let tick = Duration::from_millis(500);

    // 5 queries per tick with one failing: 20% loss, far above the threshold, but never
    // 20 samples in any single tick.
    for _ in 0..3 {
        drive(&mut pool, 0, 5, 1);
        c.tick(&mut pool, &mut global, &outcomes, tick, 0);
        assert_eq!(
            pool.resolver(0).rate(),
            UNLIMITED_QPS,
            "must not act before there are enough samples to trust the ratio"
        );
    }

    drive(&mut pool, 0, 5, 1);
    c.tick(&mut pool, &mut global, &outcomes, tick, 0);

    // 20 queries over four 500ms ticks is 10 QPS, so that is the edge.
    let expected = RETREAT * 10.0;
    let rate = qps(pool.resolver(0).rate());
    assert!(
        (rate - expected).abs() / expected < 0.05,
        "expected ~{expected} QPS (85% of the 10 QPS edge), got {rate}"
    );
}

/// A resolver too lightly loaded to fill its window is left alone rather than judged on
/// samples spanning many seconds of conditions.
#[test]
fn a_window_that_never_fills_is_discarded_rather_than_judged() {
    let mut pool = pool(1);
    let (mut c, mut global, outcomes) = controller(1, UNLIMITED_QPS);

    // One failing query per second, so the window expires before it ever fills.
    for _ in 0..40 {
        drive(&mut pool, 0, 1, 1);
        c.tick(&mut pool, &mut global, &outcomes, Duration::from_secs(1), 0);
    }

    assert_eq!(
        pool.resolver(0).rate(),
        UNLIMITED_QPS,
        "traffic this light is not evidence we are overloading anything"
    );
}

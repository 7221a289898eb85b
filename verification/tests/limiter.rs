use std::time::Duration;

use blastdns::rate::{NanoQps, ONE_QPS, UNLIMITED_QPS};
use blastdns::RateLimiter;

const MS: u64 = 1_000_000;

/// Acquire once on a clock that stands at `now_ns`, and return the time at which the
/// caller dispatches.
fn acquire_at(limiter: &mut RateLimiter, now_ns: u64) -> u64 {
    let slot_ns = limiter.acquire(now_ns);
    match RateLimiter::pause(slot_ns, now_ns) {
        Some(pause) => now_ns + pause.as_nanos() as u64,
        None => now_ns,
    }
}

#[test]
fn paces_acquires_at_configured_rate() {
    // 10 QPS = 100ms spacing; 5 acquires span 4 intervals.
    let mut limiter = RateLimiter::new(10 * ONE_QPS);
    let mut now_ns = 0;
    for _ in 0..5 {
        now_ns = acquire_at(&mut limiter, now_ns);
    }
    let elapsed = Duration::from_nanos(now_ns);
    assert!(
        elapsed >= Duration::from_millis(350),
        "5 acquires at 10 QPS took {elapsed:?}, expected >= 350ms"
    );
    assert!(
        elapsed < Duration::from_millis(700),
        "5 acquires at 10 QPS took {elapsed:?}, expected < 700ms"
    );
    assert_eq!(elapsed, Duration::from_millis(400));
}

#[test]
fn high_rps_does_not_collapse_to_timer_tick() {
    // At 100k QPS the interval is 10us. The limiter must not round that up to the
    // ~1ms timer tick and serialize every acquire at that pace.
    let mut limiter = RateLimiter::new(100_000 * ONE_QPS);
    let mut now_ns = 0;
    for _ in 0..1000 {
        now_ns = acquire_at(&mut limiter, now_ns);
    }
    let elapsed = Duration::from_nanos(now_ns);
    assert!(
        elapsed < Duration::from_millis(250),
        "1000 acquires at 100k QPS took {elapsed:?}, expected < 250ms"
    );
}

#[test]
fn idle_period_does_not_stockpile_a_burst() {
    // 10 QPS. Acquire once, idle 5 intervals, then take 3 more. The cursor must reset
    // to "now" rather than releasing back-dated slots at once.
    let mut limiter = RateLimiter::new(10 * ONE_QPS);
    let mut now_ns = acquire_at(&mut limiter, 0);
    now_ns += 500 * MS;

    let start_ns = now_ns;
    for _ in 0..3 {
        now_ns = acquire_at(&mut limiter, now_ns);
    }
    let elapsed = Duration::from_nanos(now_ns - start_ns);
    assert!(
        elapsed >= Duration::from_millis(150),
        "3 acquires after idling took {elapsed:?}, expected >= 150ms \
         (back-dated slots must not accumulate)"
    );
}

#[test]
fn interval_matches_the_configured_rate() {
    assert_eq!(RateLimiter::new(10 * ONE_QPS).interval(), Duration::from_millis(100));
    assert_eq!(RateLimiter::new(25 * ONE_QPS).interval(), Duration::from_millis(40));
    assert_eq!(RateLimiter::new(1000 * ONE_QPS).interval(), Duration::from_millis(1));
}

#[test]
fn the_interval_is_rounded_and_never_zero() {
    // One second in three is 333333333.3 ns, and two in three 666666666.7 ns.
    assert_eq!(RateLimiter::new(3 * ONE_QPS).interval(), Duration::from_nanos(333_333_333));
    assert_eq!(
        RateLimiter::new(ONE_QPS * 3 / 2).interval(),
        Duration::from_nanos(666_666_667)
    );
    assert_eq!(RateLimiter::new(UNLIMITED_QPS).interval(), Duration::from_nanos(1));
    assert_eq!(RateLimiter::new(NanoQps::MAX).interval(), Duration::from_nanos(1));
    assert_eq!(RateLimiter::new(1).interval(), Duration::from_secs(1_000_000_000));
}

#[test]
fn a_rate_change_moves_no_slot() {
    let mut limiter = RateLimiter::new(10 * ONE_QPS);
    assert_eq!(limiter.acquire(0), 0);
    limiter.set_rate(1000 * ONE_QPS);
    assert_eq!(limiter.rate(), 1000 * ONE_QPS);
    assert_eq!(limiter.acquire(0), 100 * MS, "the slot handed out next was fixed before");
    assert_eq!(limiter.acquire(0), 101 * MS, "only the spacing after it is new");
}

#[test]
fn a_short_deficit_is_not_slept_off() {
    assert_eq!(RateLimiter::pause(MS, 0), Some(Duration::from_millis(1)));
    assert_eq!(RateLimiter::pause(MS - 1, 0), None);
    assert_eq!(RateLimiter::pause(5, 5), None);
    assert_eq!(RateLimiter::pause(4, 5), None);
}

#[test]
fn slots_keep_their_distance_whatever_the_arrivals() {
    let mut limiter = RateLimiter::new(100 * ONE_QPS);
    let arrivals: [u64; 6] = [0, 3, 40 * MS, 40 * MS, 41 * MS, 200 * MS];
    let mut slots: Vec<u64> = Vec::new();
    for now_ns in arrivals {
        let slot_ns = limiter.acquire(now_ns);
        assert!(slot_ns >= now_ns, "a slot is never back-dated");
        slots.push(slot_ns);
    }
    assert_eq!(slots, vec![0, 10 * MS, 40 * MS, 50 * MS, 60 * MS, 200 * MS]);
}

#[test]
fn the_aggregate_rate_is_capped() {
    // 30k QPS is far below a millisecond apart, so most callers do not sleep.
    let mut limiter = RateLimiter::new(30_000 * ONE_QPS);
    let interval_ns = limiter.interval().as_nanos() as u64;
    let mut now_ns = 0;
    let mut dispatches: Vec<u64> = Vec::new();
    for _ in 0..500 {
        now_ns = acquire_at(&mut limiter, now_ns);
        dispatches.push(now_ns);
    }
    for i in 0..500 {
        for j in i..500 {
            let apart = dispatches[j] - dispatches[i];
            assert!(apart + MS > (j - i) as u64 * interval_ns);
        }
    }
}

#[test]
fn the_cursor_stops_at_the_end_of_the_clock() {
    let mut limiter = RateLimiter::new(ONE_QPS);
    assert_eq!(limiter.acquire(u64::MAX), u64::MAX);
    assert_eq!(limiter.acquire(0), u64::MAX);
}

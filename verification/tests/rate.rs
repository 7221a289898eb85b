use blastdns::rate::{
    grow_toward, lossy, rate_observed, retreat_from, spacing, NanoQps, MIN_RATE_QPS, ONE_QPS,
    UNLIMITED_QPS,
};

#[test]
fn spacing_is_a_second_over_the_rate() {
    assert_eq!(spacing(ONE_QPS), 1_000_000_000);
    assert_eq!(spacing(1000 * ONE_QPS), 1_000_000);
    assert_eq!(spacing(UNLIMITED_QPS), 1);
    assert!(spacing(7 * ONE_QPS) >= spacing(8 * ONE_QPS));
}

#[test]
fn observed_rates_are_queries_over_time() {
    assert_eq!(rate_observed(200, 1_000_000_000), 200 * ONE_QPS);
    assert_eq!(rate_observed(1, 3_000_000_000), 333_333_333);
    assert_eq!(rate_observed(0, 1), 0);
    assert_eq!(rate_observed(7, 0), NanoQps::MAX, "no time at all is an unbounded rate");
    assert_eq!(rate_observed(0, 0), 0);
    assert_eq!(rate_observed(u64::MAX, 1), u64::MAX as NanoQps * UNLIMITED_QPS);
}

#[test]
fn a_retreat_keeps_85_hundredths() {
    assert_eq!(retreat_from(200 * ONE_QPS), 170 * ONE_QPS);
    assert_eq!(retreat_from(MIN_RATE_QPS), MIN_RATE_QPS);
    assert_eq!(retreat_from(0), MIN_RATE_QPS);
    assert_eq!(retreat_from(NanoQps::MAX), NanoQps::MAX / 20 * 17 + 12);
}

#[test]
fn recovery_climbs_by_a_quarter() {
    assert_eq!(grow_toward(100, 1000), 125);
    assert_eq!(grow_toward(1, 1000), 2);
    assert_eq!(grow_toward(5, 1000), 7);
    assert_eq!(grow_toward(900, 1000), 1000);
    assert_eq!(grow_toward(NanoQps::MAX, NanoQps::MAX), NanoQps::MAX);
}

#[test]
fn loss_is_more_than_two_in_a_hundred() {
    assert!(!lossy(2, 100));
    assert!(lossy(3, 100));
    assert!(!lossy(0, 0));
    assert!(lossy(u64::MAX, u64::MAX));
}

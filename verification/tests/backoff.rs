use backoff_rs::{Exponential, ExponentialBackoffBuilder, DEFAULT_FACTOR, FACTOR_ONE};
use std::time::Duration;

fn five_seconds_no_jitter() -> Exponential {
    ExponentialBackoffBuilder::default()
        .jitter(Duration::default())
        .max(Duration::from_secs(5))
        .build()
}

#[test]
fn no_jitter() {
    let bo = ExponentialBackoffBuilder::default()
        .jitter(Duration::default())
        .max(Duration::from_secs(5))
        .build();

    assert_eq!(bo.duration(0), Duration::from_millis(500));
    assert_eq!(bo.duration(1), Duration::from_millis(875));
    assert_eq!(bo.duration(2), Duration::from_nanos(1531250000));
    assert_eq!(bo.duration(3), Duration::from_nanos(2679687500));
    assert_eq!(bo.duration(4), Duration::from_nanos(4689453125));
    assert_eq!(bo.duration(5), Duration::from_secs(5));
}

#[test]
fn with_jitter() {
    let bo = ExponentialBackoffBuilder::default()
        .jitter(Duration::default())
        .max(Duration::from_secs(5))
        .build();

    assert!(bo.duration(0) <= Duration::from_millis(500));
    assert!(bo.duration(1) <= Duration::from_millis(875));
    assert!(bo.duration(2) <= Duration::from_nanos(1531250000));
    assert!(bo.duration(3) <= Duration::from_nanos(2679687500));
    assert!(bo.duration(4) <= Duration::from_nanos(4689453125));
    assert!(bo.duration(5) <= Duration::from_secs(5));
}

#[test]
fn default_factor_is_seven_quarters() {
    assert_eq!(FACTOR_ONE, 1u64 << 32);
    assert_eq!(DEFAULT_FACTOR, FACTOR_ONE / 4 * 7);
}

#[test]
fn defaults_are_in_force_when_nothing_is_set() {
    let bo = ExponentialBackoffBuilder::default().build();
    // base interval 500 ms, factor 1.75, no cap
    assert_eq!(bo.duration_with_jitter(0, 0), Duration::from_millis(500));
    assert_eq!(bo.duration_with_jitter(1, 0), Duration::from_millis(875));
    assert_eq!(bo.duration_with_jitter(5, 0), Duration::from_nanos(8206542968));
    assert_eq!(bo.duration_with_jitter(10, 0), Duration::from_nanos(134694694995));
    // at most 150 ms of jitter
    for _ in 0..200 {
        let d = bo.duration(0);
        assert!(d >= Duration::from_millis(500));
        assert!(d <= Duration::from_millis(650));
    }
}

#[test]
fn repeated_calls_without_jitter_agree() {
    let bo = five_seconds_no_jitter();
    for attempt in 0..12 {
        let first = bo.duration(attempt);
        for _ in 0..20 {
            assert_eq!(bo.duration(attempt), first);
        }
        assert_eq!(first, bo.duration_with_jitter(attempt, 0));
    }
}

#[test]
fn waits_grow_until_the_cap_and_then_stay() {
    let bo = five_seconds_no_jitter();
    let mut last = Duration::default();
    for attempt in 0..40 {
        let d = bo.duration(attempt);
        assert!(d >= last);
        assert!(d <= Duration::from_secs(5));
        if attempt >= 5 {
            assert_eq!(d, Duration::from_secs(5));
        }
        last = d;
    }
}

#[test]
fn cap_holds_for_every_attempt_and_draw() {
    let bo = ExponentialBackoffBuilder::default()
        .max(Duration::from_secs(2))
        .build();
    for attempt in 0..64 {
        assert!(bo.duration(attempt) <= Duration::from_secs(2));
    }
    assert_eq!(bo.duration_with_jitter(1000, u128::MAX), Duration::from_secs(2));
    assert_eq!(bo.duration_with_jitter(3, 0), Duration::from_secs(2));
    assert_eq!(bo.duration_with_jitter(2, 0), Duration::from_nanos(1531250000));
}

#[test]
fn cap_below_the_interval_wins_from_the_start() {
    let bo = ExponentialBackoffBuilder::default()
        .jitter(Duration::default())
        .max(Duration::from_millis(100))
        .build();
    assert_eq!(bo.duration(0), Duration::from_millis(100));
    assert_eq!(bo.duration(7), Duration::from_millis(100));
}

#[test]
fn jitter_stays_within_its_bounds() {
    let bo = ExponentialBackoffBuilder::default()
        .jitter(Duration::from_millis(150))
        .max(Duration::from_secs(5))
        .build();
    let exact: [u64; 6] = [
        500000000,
        875000000,
        1531250000,
        2679687500,
        4689453125,
        5000000000,
    ];
    for attempt in 0..6 {
        for _ in 0..100 {
            let d = bo.duration(attempt);
            let low = Duration::from_nanos(exact[attempt]);
            let high = Duration::from_nanos((exact[attempt] + 150_000_000).min(5_000_000_000));
            assert!(d >= low);
            assert!(d <= high);
        }
    }
}

#[test]
fn draws_differ_from_one_another() {
    let bo = ExponentialBackoffBuilder::default()
        .jitter(Duration::from_secs(1))
        .build();
    let top = Duration::from_millis(1500);
    let mut below_top = false;
    let mut distinct = false;
    let first = bo.duration(0);
    for _ in 0..64 {
        let d = bo.duration(0);
        assert!(d >= Duration::from_millis(500));
        assert!(d <= top);
        if d < top {
            below_top = true;
        }
        if d != first {
            distinct = true;
        }
    }
    assert!(below_top);
    assert!(distinct);
}

#[test]
fn drawn_jitter_is_added_exactly() {
    let bo = five_seconds_no_jitter();
    assert_eq!(bo.duration_with_jitter(0, 1), Duration::from_nanos(500000001));
    assert_eq!(bo.duration_with_jitter(1, 150_000_000), Duration::from_millis(1025));
    assert_eq!(bo.duration_with_jitter(4, 310_546_874), Duration::from_nanos(4999999999));
    assert_eq!(bo.duration_with_jitter(4, 310_546_875), Duration::from_secs(5));
    assert_eq!(bo.duration_with_jitter(4, 310_546_876), Duration::from_secs(5));
}

#[test]
fn setters_overwrite_one_field_each() {
    let bo = ExponentialBackoffBuilder::default()
        .factor(2 * FACTOR_ONE)
        .interval(Duration::from_millis(100))
        .jitter(Duration::from_nanos(0))
        .build();
    assert_eq!(bo.duration(0), Duration::from_millis(100));
    assert_eq!(bo.duration(1), Duration::from_millis(200));
    assert_eq!(bo.duration(10), Duration::from_millis(102400));

    let bo = ExponentialBackoffBuilder::default()
        .interval(Duration::from_secs(1))
        .build();
    assert_eq!(bo.duration_with_jitter(1, 0), Duration::from_millis(1750));

    let bo = ExponentialBackoffBuilder::default()
        .factor(FACTOR_ONE)
        .build();
    assert_eq!(bo.duration_with_jitter(1_000_000, 0), Duration::from_millis(500));
}

#[test]
fn setters_chain_in_any_order() {
    let a = ExponentialBackoffBuilder::default()
        .max(Duration::from_secs(3))
        .jitter(Duration::from_nanos(0))
        .interval(Duration::from_millis(10))
        .factor(3 * FACTOR_ONE)
        .build();
    let b = ExponentialBackoffBuilder::default()
        .factor(3 * FACTOR_ONE)
        .interval(Duration::from_millis(10))
        .jitter(Duration::from_nanos(0))
        .max(Duration::from_secs(3))
        .build();
    for attempt in 0..10 {
        assert_eq!(a.duration(attempt), b.duration(attempt));
    }
    assert_eq!(a.duration(5), Duration::from_millis(2430));
    assert_eq!(a.duration(6), Duration::from_secs(3));
}

#[test]
fn a_later_setting_replaces_an_earlier_one() {
    let bo = ExponentialBackoffBuilder::default()
        .jitter(Duration::from_nanos(0))
        .max(Duration::from_secs(1))
        .max(Duration::from_secs(4))
        .interval(Duration::from_secs(9))
        .interval(Duration::from_secs(3))
        .build();
    assert_eq!(bo.duration(0), Duration::from_secs(3));
    assert_eq!(bo.duration(1), Duration::from_secs(4));
}

#[test]
fn uncapped_growth_stops_at_the_largest_nanosecond_count() {
    let bo = ExponentialBackoffBuilder::default()
        .factor(2 * FACTOR_ONE)
        .jitter(Duration::from_nanos(0))
        .build();
    assert_eq!(bo.duration(35), Duration::from_nanos(17179869184000000000));
    assert_eq!(bo.duration(36), Duration::from_nanos(u64::MAX));
    assert_eq!(bo.duration(100_000), Duration::from_nanos(u64::MAX));
    assert_eq!(bo.duration(usize::MAX), Duration::from_nanos(u64::MAX));
    assert_eq!(bo.duration_with_jitter(35, u128::MAX), Duration::from_nanos(u64::MAX));
}

#[test]
fn a_factor_below_one_shrinks_the_wait_to_nothing() {
    let bo = ExponentialBackoffBuilder::default()
        .factor(FACTOR_ONE / 2)
        .interval(Duration::from_nanos(1000))
        .jitter(Duration::from_nanos(0))
        .build();
    let exact: [u64; 12] = [1000, 500, 250, 125, 62, 31, 15, 7, 3, 1, 0, 0];
    for attempt in 0..12 {
        assert_eq!(bo.duration(attempt), Duration::from_nanos(exact[attempt]));
    }
    assert_eq!(bo.duration(usize::MAX), Duration::from_nanos(0));
}

#[test]
fn a_factor_of_zero_keeps_only_the_first_wait() {
    let bo = ExponentialBackoffBuilder::default()
        .factor(0)
        .jitter(Duration::from_nanos(0))
        .build();
    assert_eq!(bo.duration(0), Duration::from_millis(500));
    assert_eq!(bo.duration(1), Duration::from_nanos(0));
    assert_eq!(bo.duration(2), Duration::from_nanos(0));
    assert_eq!(bo.duration_with_jitter(9, 42), Duration::from_nanos(42));
}

#[test]
fn an_interval_of_zero_leaves_the_jitter_alone() {
    let bo = ExponentialBackoffBuilder::default()
        .interval(Duration::from_nanos(0))
        .jitter(Duration::from_nanos(10))
        .build();
    for attempt in 0..20 {
        assert!(bo.duration(attempt) <= Duration::from_nanos(10));
    }
    assert_eq!(bo.duration_with_jitter(50, 0), Duration::from_nanos(0));
}

#[test]
fn a_jitter_above_the_interval_is_taken_as_it_is() {
    let bo = ExponentialBackoffBuilder::default()
        .interval(Duration::from_nanos(5))
        .jitter(Duration::from_secs(1))
        .factor(FACTOR_ONE)
        .build();
    for _ in 0..100 {
        let d = bo.duration(3);
        assert!(d >= Duration::from_nanos(5));
        assert!(d <= Duration::from_nanos(1_000_000_005));
    }
}

#[test]
fn the_product_is_rounded_down_once_at_the_end() {
    // 1.5^n for n = 0..7 is 1, 1.5, 2.25, 3.375, 5.0625, 7.59.., 11.39.., 17.08..
    let bo = ExponentialBackoffBuilder::default()
        .factor(FACTOR_ONE / 2 * 3)
        .interval(Duration::from_nanos(1))
        .jitter(Duration::from_nanos(0))
        .build();
    let exact: [u64; 8] = [1, 1, 2, 3, 5, 7, 11, 17];
    for attempt in 0..8 {
        assert_eq!(bo.duration(attempt), Duration::from_nanos(exact[attempt]));
    }
}

#[test]
fn intervals_beyond_sixty_four_bits_of_nanoseconds() {
    // 2^70 ns, halved with every attempt
    let interval = Duration::new(1_180_591_620_717, 411_303_424);
    assert_eq!(interval.as_nanos(), 1u128 << 70);
    let bo = ExponentialBackoffBuilder::default()
        .factor(FACTOR_ONE / 2)
        .interval(interval)
        .jitter(Duration::from_nanos(0))
        .build();
    assert_eq!(bo.duration(0), Duration::from_nanos(u64::MAX));
    assert_eq!(bo.duration(6), Duration::from_nanos(u64::MAX));
    assert_eq!(bo.duration(7), Duration::from_nanos(1u64 << 63));
    assert_eq!(bo.duration(10), Duration::from_nanos(1u64 << 60));
}

#[test]
fn a_cap_beyond_sixty_four_bits_of_nanoseconds_never_bites() {
    let bo = ExponentialBackoffBuilder::default()
        .factor(2 * FACTOR_ONE)
        .jitter(Duration::from_nanos(0))
        .max(Duration::from_secs(u64::MAX))
        .build();
    assert_eq!(bo.duration(35), Duration::from_nanos(17179869184000000000));
    assert_eq!(bo.duration(36), Duration::from_nanos(u64::MAX));
}

use wave_bench::stats::stats;

#[test]
fn empty_durations_summarise_to_zero() {
    let s = stats(&[]);
    assert_eq!(s.count, 0);
    assert_eq!(s.total, 0);
    assert_eq!(s.min, 0);
    assert_eq!(s.max, 0);
    assert_eq!(s.spread, 0);
    assert!(s.stdev_is_zero());
}

#[test]
fn single_duration_has_zero_spread() {
    let s = stats(&[1_500_000_000]);
    assert_eq!(s.count, 1);
    assert_eq!(s.total, 1_500_000_000);
    assert_eq!(s.min, 1_500_000_000);
    assert_eq!(s.max, 1_500_000_000);
    assert_eq!(s.spread, 0);
    assert!(s.stdev_is_zero());
}

#[test]
fn identical_durations_have_zero_spread() {
    let v: u64 = 250_000_000;
    let s = stats(&[v, v, v, v]);
    assert_eq!(s.count, 4);
    assert_eq!(s.total, 4 * v);
    assert_eq!(s.total / s.count, v);
    assert_eq!(s.min, v);
    assert_eq!(s.max, v);
    assert_eq!(s.spread, 0);
    assert!(!s.stdev_is_zero());
}

#[test]
fn spread_uses_bessel_correction() {
    // 1, 2, 3: mean 2, squared deviations 1 + 0 + 1 = 2, sample variance 1.
    let s = stats(&[3, 1, 2]);
    assert_eq!(s.total, 6);
    assert_eq!(s.min, 1);
    assert_eq!(s.max, 3);
    assert_eq!(s.spread, 6);
    let n = s.count as u128;
    assert_eq!(s.spread / (n * (n - 1)), 1);
}

#[test]
fn spread_of_two_durations() {
    // 10 and 30: mean 20, squared deviations 200, sample variance 200.
    let s = stats(&[10, 30]);
    assert_eq!(s.spread, 2 * (100 + 900) - 40 * 40);
    assert_eq!(s.spread / 2, 200);
    assert_eq!(s.min, 10);
    assert_eq!(s.max, 30);
}

#[test]
fn large_durations_do_not_overflow() {
    let big: u64 = u64::MAX / 2;
    let s = stats(&[big, big - 1]);
    assert_eq!(s.total, 2 * big - 1);
    assert_eq!(s.min, big - 1);
    assert_eq!(s.max, big);
    assert_eq!(s.spread, 1);
}

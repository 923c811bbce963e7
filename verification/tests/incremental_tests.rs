use pattern_engine::incremental::{EMA, VWAP, Welford};
use pattern_engine::num::SCALE;

#[test]
fn test_ema() {
    let mut ema = EMA::new(100_000_000);

    // First value should be returned as-is
    assert_eq!(ema.update(10 * SCALE), 10 * SCALE);
    assert_eq!(ema.value(), Some(10 * SCALE));

    // Subsequent values should be smoothed
    let second = ema.update(12 * SCALE);
    assert!(second > 10 * SCALE && second < 12 * SCALE);
}

#[test]
fn test_ema_smoothing_exact() {
    let mut ema = EMA::new(100_000_000);
    ema.update(10 * SCALE);
    // 0.1 * 12 + 0.9 * 10 = 10.2
    assert_eq!(ema.update(12 * SCALE), 10_200_000_000);
}

#[test]
fn test_ema_converges_monotonically() {
    let mut ema = EMA::new(300_000_000);
    ema.update(10 * SCALE);
    let mut prev = ema.update(20 * SCALE);
    for _ in 0..20 {
        let next = ema.update(20 * SCALE);
        assert!(next >= prev);
        assert!(next <= 20 * SCALE);
        prev = next;
    }
}

#[test]
fn test_vwap() {
    let mut vwap = VWAP::new();

    // First update
    assert_eq!(vwap.update(100 * SCALE, 10 * SCALE), (100 * SCALE) as i128);

    // Second update
    let second = vwap.update(102 * SCALE, 5 * SCALE) as f64 / SCALE as f64;
    assert!((second - 100.66666666666667).abs() < 1e-9);

    // Third update
    let third = vwap.update(98 * SCALE, 15 * SCALE) as f64 / SCALE as f64;
    assert!((third - 99.33333333333333).abs() < 1e-9);
}

#[test]
fn test_vwap_no_volume_is_zero() {
    let vwap = VWAP::new();
    assert_eq!(vwap.value(), 0);
    let mut vwap = VWAP::new();
    assert_eq!(vwap.update(100 * SCALE, 0), 0);
}

#[test]
fn test_welford() {
    let mut welford = Welford::new();

    // Add some test data
    welford.update(10 * SCALE);
    welford.update(12 * SCALE);
    welford.update(14 * SCALE);

    assert_eq!(welford.count(), 3);
    assert_eq!(welford.mean(), 12 * SCALE);
    // Sample variance, in squared fixed-point steps
    assert_eq!(welford.variance(), 4 * (SCALE as i128) * (SCALE as i128));
    assert_eq!(welford.std_dev(), 2 * (SCALE as i128));
}

#[test]
fn test_welford_below_two_observations() {
    let mut welford = Welford::new();
    assert_eq!(welford.variance(), 0);
    welford.update(10 * SCALE);
    assert_eq!(welford.variance(), 0);
    assert_eq!(welford.std_dev(), 0);
}

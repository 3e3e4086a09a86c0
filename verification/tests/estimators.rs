use tap_tempo::bpm::{direct_count, simple_regression, thiel_sen, BpmCalculationError, BpmRatio};

type BpmResult = Result<BpmRatio, BpmCalculationError>;

fn bpm_of(r: BpmResult) -> f64 {
    let v = r.unwrap();
    v.num as f64 / v.den as f64
}

#[test]
fn fewer_than_two_taps_is_insufficient() {
    let empty: Vec<u64> = vec![];
    let one: Vec<u64> = vec![0];
    assert_eq!(direct_count(&empty), Err(BpmCalculationError::InsufficientData));
    assert_eq!(simple_regression(&empty), Err(BpmCalculationError::InsufficientData));
    assert_eq!(thiel_sen(&empty), Err(BpmCalculationError::InsufficientData));
    assert_eq!(direct_count(&one), Err(BpmCalculationError::InsufficientData));
    assert_eq!(simple_regression(&one), Err(BpmCalculationError::InsufficientData));
    assert_eq!(thiel_sen(&one), Err(BpmCalculationError::InsufficientData));
}

#[test]
fn exactly_120_bpm_on_regular_taps() {
    // taps at 0, 500, 1000, 1500 ms: exactly 120 beats per minute
    let offsets: Vec<u64> = vec![0, 500, 1000, 1500];
    assert_eq!(bpm_of(direct_count(&offsets)), 120.0);
    assert_eq!(bpm_of(simple_regression(&offsets)), 120.0);
    assert_eq!(bpm_of(thiel_sen(&offsets)), 120.0);
}

#[test]
fn regular_taps_are_scale_consistent() {
    // interval d gives exactly 60000 / d, for several d and lengths
    for &(d, n) in &[(250u64, 5usize), (500, 9), (750, 4), (1000, 2)] {
        let offsets: Vec<u64> = (0..n as u64).map(|i| i * d).collect();
        let expected = 60000.0 / d as f64;
        assert_eq!(bpm_of(direct_count(&offsets)), expected);
        assert_eq!(bpm_of(simple_regression(&offsets)), expected);
        assert_eq!(bpm_of(thiel_sen(&offsets)), expected);
    }
}

#[test]
fn regression_equals_direct_count_on_regular_taps() {
    let offsets: Vec<u64> = vec![0, 300, 600, 900, 1200, 1500];
    let a = direct_count(&offsets).unwrap();
    let b = simple_regression(&offsets).unwrap();
    // the same rational value, even before any floating-point division
    assert_eq!(a.num as i128 * b.den, b.num * a.den);
    assert_eq!(bpm_of(Ok(a)), bpm_of(Ok(b)));
}

#[test]
fn one_late_tap() {
    // taps at 0, 500, 1000, 2000: the last one is late
    let offsets: Vec<u64> = vec![0, 500, 1000, 2000];
    let direct = bpm_of(direct_count(&offsets));
    let regression = bpm_of(simple_regression(&offsets));
    let robust = bpm_of(thiel_sen(&offsets));
    // 3 beats in 2000 ms
    assert_eq!(direct, 90.0);
    // the median pairwise slope still sees the steady 120 BPM majority
    assert_eq!(robust, 120.0);
    // and lands closer to 120 than the least-squares fit does
    assert!((robust - 120.0).abs() < (regression - 120.0).abs());
    assert!(regression > 89.0 && regression < 90.0);
}

#[test]
fn one_perturbed_interior_tap_does_not_move_the_median() {
    // regular 120 BPM with the middle tap 300 ms late
    let offsets: Vec<u64> = vec![0, 500, 1300, 1500, 2000];
    let regression = bpm_of(simple_regression(&offsets));
    let robust = bpm_of(thiel_sen(&offsets));
    assert_eq!(robust, 120.0);
    assert!(regression != 120.0);
    assert!((robust - 120.0).abs() < (regression - 120.0).abs());
}

#[test]
fn even_slope_count_selects_the_upper_middle() {
    // six pairwise slopes, beats per ms:
    //   1/180 < 2/300 < 3/400 | 1/120 < 2/220 < 1/100
    // the element at index 6 / 2 is 1/120, not 3/400 and not their average
    let offsets: Vec<u64> = vec![0, 100, 220, 400];
    assert_eq!(bpm_of(thiel_sen(&offsets)), 500.0);
}

#[test]
fn estimators_are_idempotent() {
    let offsets: Vec<u64> = vec![0, 480, 1010, 1490, 2030];
    assert_eq!(direct_count(&offsets), direct_count(&offsets));
    assert_eq!(simple_regression(&offsets), simple_regression(&offsets));
    assert_eq!(thiel_sen(&offsets), thiel_sen(&offsets));
}

#[test]
fn zero_elapsed_time_is_not_an_error() {
    // all taps at the same instant: infinite or undefined BPM, never a crash
    let offsets: Vec<u64> = vec![0, 0];
    let d = direct_count(&offsets).unwrap();
    assert_eq!(d.den, 0);
    assert!((d.num as f64 / d.den as f64).is_infinite());
    let t = thiel_sen(&offsets).unwrap();
    assert_eq!(t.den, 0);
    assert!((t.num as f64 / t.den as f64).is_infinite());
    // zero variance makes the regression 0 / 0
    let r = simple_regression(&vec![5, 5, 5]).unwrap();
    assert_eq!(r.den, 0);
    assert!((r.num as f64 / r.den as f64).is_nan());
}

#[test]
fn an_infinite_pairwise_slope_joins_the_median() {
    // the pair of equal offsets contributes an infinite slope; with three
    // slopes the median is the finite middle one
    let offsets: Vec<u64> = vec![0, 0, 600];
    let t = thiel_sen(&offsets).unwrap();
    // slopes: 1/0, 2/600, 1/600 -> sorted 1/600, 2/600, 1/0; median 2/600
    assert_eq!((t.num, t.den), (120000, 600));
    assert_eq!(bpm_of(Ok(t)), 200.0);
}

#[test]
fn direct_count_exact_values() {
    // 3 intervals over 2000 ms: 3 * 60000 / 2000
    let offsets: Vec<u64> = vec![0, 500, 1000, 2000];
    let d = direct_count(&offsets).unwrap();
    assert_eq!((d.num, d.den), (180000, 2000));
}

#[test]
fn simple_regression_exact_values() {
    // n = 4, sums 3000, 3500000, 7000:
    //   num = 60000 (2*4*7000 - 4*3*3000), den = 2 (4*3500000 - 3000^2)
    let offsets: Vec<u64> = vec![0, 500, 1000, 1500];
    let r = simple_regression(&offsets).unwrap();
    assert_eq!((r.num, r.den), (1200000000, 10000000));
}

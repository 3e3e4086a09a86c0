use tap_tempo::session::TapData;

fn bpm_of(r: Result<tap_tempo::bpm::BpmRatio, tap_tempo::bpm::BpmCalculationError>) -> f64 {
    let v = r.unwrap();
    v.num as f64 / v.den as f64
}

#[test]
fn first_tap_seeds_a_session() {
    let mut t = TapData::default();
    assert!(t.start.is_none());
    assert!(t.timestamps.is_empty());
    assert!(!t.is_reset());
    t.record(1000);
    assert_eq!(t.start, Some(1000));
    assert_eq!(t.timestamps, vec![0]);
    assert!(!t.is_reset());
}

#[test]
fn session_transitions() {
    // Empty --record(t0)--> Active with offsets [0]
    let mut t = TapData::default();
    t.record(1000);
    assert_eq!(t.timestamps, vec![0]);
    // a second record(t1) appends t1 - t0
    t.record(1500);
    assert_eq!(t.timestamps, vec![0, 500]);
    // clear_origin keeps the offsets but flags the reset
    t.clear_origin();
    assert!(t.is_reset());
    assert_eq!(t.timestamps, vec![0, 500]);
    // the next record discards the old session
    t.record(9000);
    assert!(!t.is_reset());
    assert_eq!(t.timestamps, vec![0]);
    assert_eq!(t.start, Some(9000));
}

#[test]
fn simultaneous_taps_are_kept() {
    let mut t = TapData::default();
    t.record(400);
    t.record(400);
    t.record(400);
    assert_eq!(t.timestamps, vec![0, 0, 0]);
}

#[test]
fn a_session_feeds_the_estimators() {
    let mut t = TapData::default();
    t.record(10_000);
    t.record(10_500);
    t.record(11_000);
    t.record(11_500);
    assert_eq!(t.timestamps, vec![0, 500, 1000, 1500]);
    assert_eq!(bpm_of(tap_tempo::bpm::direct_count(&t.timestamps)), 120.0);
    t.clear_origin();
    // the reset keeps the last results readable
    assert_eq!(bpm_of(tap_tempo::bpm::direct_count(&t.timestamps)), 120.0);
}

use raytrace::interval::Interval;

#[test]
fn new_keeps_bounds() {
    let iv = Interval::new(-5, 10);
    assert_eq!(iv.min, -5);
    assert_eq!(iv.max, 10);
}

#[test]
fn contains_is_inclusive() {
    let iv = Interval::new(0, 65536);
    assert!(iv.contains(0));
    assert!(iv.contains(65536));
    assert!(iv.contains(30000));
    assert!(!iv.contains(-1));
    assert!(!iv.contains(65537));
}

#[test]
fn surrounds_is_exclusive() {
    let iv = Interval::new(0, 65536);
    assert!(!iv.surrounds(0));
    assert!(!iv.surrounds(65536));
    assert!(iv.surrounds(1));
    assert!(iv.surrounds(65535));
}

#[test]
fn egpty_contains_nothing() {
    let iv = Interval::egpty();
    assert!(!iv.contains(0));
    assert!(!iv.contains(i64::MAX));
    assert!(!iv.contains(i64::MIN));
    assert!(!iv.surrounds(0));
}

#[test]
fn universe_contains_everything() {
    let iv = Interval::universe();
    assert!(iv.contains(0));
    assert!(iv.contains(i64::MAX));
    assert!(iv.contains(i64::MIN));
}

#[test]
fn size_is_extent() {
    assert_eq!(Interval::new(-65536, 65536).size(), 131072);
    assert!(Interval::egpty().size() < 0);
}

#[test]
fn clamp_saturates() {
    let iv = Interval::new(0, 65536);
    assert_eq!(iv.clamp(-100), 0);
    assert_eq!(iv.clamp(70000), 65536);
    assert_eq!(iv.clamp(12345), 12345);
}

#[test]
fn clamp_is_idempotent_and_in_range() {
    let iv = Interval::new(-300, 8000);
    for &x in &[-1000000i64, -301, -300, 0, 7999, 8000, 8001, 1000000] {
        let once = iv.clamp(x);
        assert_eq!(iv.clamp(once), once);
        assert!(iv.min <= once && once <= iv.max);
    }
}

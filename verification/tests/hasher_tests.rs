use scada_core::float_bits::{float_eq, FAILURE_MARKER};
use scada_core::hasher::{HashedValue, ValueHasher, FAILURE_DELTA, STABLE_DELTA};

fn bits(x: f64) -> u64 {
    x.to_bits()
}

fn kept(v: u64, t: u64) -> HashedValue {
    HashedValue { val: v, timestamp: t }
}

fn same(a: &HashedValue, b: &HashedValue) -> bool {
    a.val == b.val && a.timestamp == b.timestamp
}

#[test]
fn unchanged_value_is_filtered_until_stable_delta() {
    let mut h = ValueHasher::new(8, bits(0.0), 0);
    let first = h.add(bits(10.0), 100).unwrap().unwrap();
    assert!(same(&first, &kept(bits(10.0), 100)));
    assert!(h.add(bits(10.0), 200).unwrap().is_none());
    // the kept reading was touched at 200, so 300 seconds count from there
    assert!(h.add(bits(10.0), 200 + STABLE_DELTA - 1).unwrap().is_none());
    let again = h.add(bits(10.0), 200 + STABLE_DELTA - 1 + STABLE_DELTA).unwrap().unwrap();
    assert_eq!(again.timestamp, 200 + STABLE_DELTA - 1 + STABLE_DELTA);
}

#[test]
fn changed_value_is_kept_at_once() {
    let mut h = ValueHasher::new(8, bits(0.0), 0);
    h.add(bits(1.0), 10).unwrap();
    let r = h.add(bits(2.0), 11).unwrap().unwrap();
    assert!(same(&r, &kept(bits(2.0), 11)));
}

#[test]
fn failure_is_reported_once_after_failure_delta() {
    let mut h = ValueHasher::new(8, bits(0.0), 0);
    h.add(bits(5.0), 10).unwrap();
    assert!(h.add(FAILURE_MARKER, 100).unwrap().is_none());
    assert!(h.add(FAILURE_MARKER, 100 + FAILURE_DELTA - 1).unwrap().is_none());
    let reported = h.add(FAILURE_MARKER, 100 + FAILURE_DELTA).unwrap_err();
    assert_eq!(reported.val, FAILURE_MARKER);
    assert_eq!(reported.timestamp, 100 + FAILURE_DELTA);
    assert!(h.add(FAILURE_MARKER, 1000).unwrap().is_none());
    let back = h.add(bits(5.0), 1001).unwrap().unwrap();
    assert!(same(&back, &kept(bits(5.0), 1001)));
}

#[test]
fn short_failure_rolls_back_when_value_is_the_same() {
    let mut h = ValueHasher::new(8, bits(0.0), 0);
    h.add(bits(5.0), 10).unwrap();
    h.add(bits(6.0), 20).unwrap();
    assert!(h.add(FAILURE_MARKER, 30).unwrap().is_none());
    // the reading before the failure is 6.0 at 20: an equal reading is noise,
    // the 6.0 is touched and the failure slot stays counted in the ring
    assert!(h.add(bits(6.0), 40).unwrap().is_none());
    let got = h.get_hashed(10, 41).unwrap();
    assert_eq!(got.len(), 3);
    assert!(same(&got[0], &kept(bits(5.0), 10)));
    assert!(same(&got[1], &kept(bits(6.0), 40)));
    assert!(same(&got[2], &kept(FAILURE_MARKER, 30)));
}

#[test]
fn range_gives_kept_values_in_window() {
    let mut h = ValueHasher::new(8, bits(0.0), 0);
    for (i, v) in [1.0f64, 2.0, 3.0, 4.0].iter().enumerate() {
        h.add(bits(*v), 100 * (i as u64 + 1)).unwrap();
    }
    let got = h.get_hashed(100, 300).unwrap();
    assert_eq!(got.len(), 2);
    assert!(same(&got[0], &kept(bits(1.0), 100)));
    assert!(same(&got[1], &kept(bits(2.0), 200)));
    assert!(h.get_hashed(300, 300).is_none());
    assert!(h.get_hashed(50, 400).is_none());
}

#[test]
fn empty_hasher_has_no_range() {
    let h = ValueHasher::new(4, bits(1.0), 5);
    assert!(h.get_hashed(0, 100).is_none());
}

#[test]
fn ring_keeps_only_the_newest() {
    let mut h = ValueHasher::new(3, bits(0.0), 0);
    for i in 1..=5u64 {
        h.add(bits(i as f64), i * 10).unwrap();
    }
    // a full ring is searched over one slot more than it holds, and read
    // back modulo its capacity
    let got = h.get_hashed(30, 60).unwrap();
    assert_eq!(got.len(), 1);
    assert!(same(&got[0], &kept(bits(5.0), 50)));
    assert!(h.get_hashed(20, 60).is_none());
}

#[test]
fn accepts_rejects_time_going_back_on_equal_value() {
    let mut h = ValueHasher::new(4, bits(0.0), 0);
    h.add(bits(1.0), 100).unwrap();
    assert!(h.accepts(bits(2.0), 50));
    assert!(!h.accepts(bits(1.0), 50));
    assert!(h.accepts(bits(1.0), 100));
}

#[test]
fn float_equality_follows_ieee() {
    assert!(float_eq(bits(0.0), bits(-0.0)));
    assert!(!float_eq(bits(f64::NAN), bits(f64::NAN)));
    assert!(float_eq(bits(1.5), bits(1.5)));
    assert!(!float_eq(bits(1.5), bits(2.5)));
    assert_eq!(FAILURE_MARKER, f64::MIN.to_bits());
}

#[test]
fn ordered_readings_are_always_accepted() {
    let mut h = ValueHasher::new(3, bits(0.0), 50);
    let readings: [(u64, u64); 9] = [
        (bits(1.0), 50),
        (bits(1.0), 50),
        (FAILURE_MARKER, 60),
        (FAILURE_MARKER, 60),
        (bits(1.0), 61),
        (FAILURE_MARKER, 400),
        (FAILURE_MARKER, 520),
        (bits(2.0), 520),
        (bits(2.0), 900),
    ];
    for (v, t) in readings.iter() {
        assert!(h.accepts(*v, *t));
        let _ = h.add(*v, *t);
    }
}

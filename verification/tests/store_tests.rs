use scada_core::hasher::HashedValue;
use scada_core::measure_store::{FlushOutcome, DbMeasureUnit, MeasureStore, ARCHIVE_ERROR, FLUSH_THRESHOLD, HASHER_CAPACITY};

fn hv(v: f64, t: u64) -> HashedValue {
    HashedValue { val: v.to_bits(), timestamp: t }
}

#[test]
fn first_reading_of_a_value_is_archived() {
    let mut s = MeasureStore::new();
    let r = s.record(7, 3.0f64.to_bits(), 100).unwrap();
    assert_eq!(r.val, 3.0f64.to_bits());
    assert_eq!(r.timestamp, 100);
    assert!(s.cached(8, 0, 200).is_none());
    assert_eq!(HASHER_CAPACITY, 40320);
}

#[test]
fn store_filters_through_the_value_hasher() {
    let mut s = MeasureStore::new();
    s.record(1, 3.0f64.to_bits(), 100);
    let second = s.record(1, 4.0f64.to_bits(), 110).unwrap();
    assert_eq!(second.timestamp, 110);
    assert!(s.record(1, 4.0f64.to_bits(), 120).is_none());
    assert!(s.cached(1, 110, 121).is_none());
    let got = s.cached(1, 120, 121).unwrap();
    assert_eq!(got.len(), 1);
    assert_eq!(got[0].timestamp, 120);
}

#[test]
fn buffer_is_due_past_the_threshold() {
    let mut b = DbMeasureUnit::new();
    for i in 0..FLUSH_THRESHOLD {
        assert!(!b.save_value(1, hv(i as f64, i as u64)));
    }
    assert!(b.save_value(1, hv(99.0, 99)));
    assert_eq!(b.pending().len(), FLUSH_THRESHOLD + 1);
}

#[test]
fn failed_flush_keeps_items_and_blocks_archive_reads() {
    let mut b = DbMeasureUnit::new();
    b.save_value(3, hv(1.0, 1));
    assert!(b.check_archive().is_ok());
    assert!(b.finish_flush(FlushOutcome::InsertFailed).is_err());
    assert_eq!(b.pending().len(), 1);
    assert_eq!(b.check_archive().unwrap_err(), ARCHIVE_ERROR);
    assert!(b.finish_flush(FlushOutcome::Committed).is_ok());
    assert_eq!(b.pending().len(), 0);
    assert!(b.check_archive().is_ok());
}

#[test]
fn begin_and_commit_failures_mark_the_buffer() {
    let mut b = DbMeasureUnit::new();
    b.save_value(3, hv(1.0, 1));
    assert!(b.finish_flush(FlushOutcome::BeginFailed).is_err());
    assert!(b.check_archive().is_err());
    assert!(b.finish_flush(FlushOutcome::CommitFailed).is_err());
    assert_eq!(b.pending().len(), 1);
}

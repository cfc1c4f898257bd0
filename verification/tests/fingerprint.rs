use codira::fingerprint::{FaultCounts, RING_BUFFER_CAPACITY};

#[test]
fn fresh_fingerprint_starts_empty() {
    let fp = FaultCounts::new(1);
    assert_eq!(fp.fault_count(), 0);
    assert_eq!(fp.success_count() + fp.fail_count(), 0);
    assert!(fp.healing_latencies().is_empty());
    assert_eq!(fp.site_id(), 1);
}

#[test]
fn fault_histogram_accumulates() {
    let mut fp = FaultCounts::new(1);
    fp.record_fault(0);
    fp.record_fault(1);
    fp.record_fault(0);
    assert_eq!(fp.fault_count(), 3);
    assert_eq!(fp.faults_of(0), 2);
    assert_eq!(fp.faults_of(1), 1);
    assert_eq!(fp.faults_of(7), 0);
}

#[test]
fn success_counts_reflect_outcomes() {
    let mut fp = FaultCounts::new(1);
    for _ in 0..3 {
        fp.record_recovery(true, 0);
    }
    fp.record_recovery(false, 0);
    assert_eq!(fp.success_count(), 3);
    assert_eq!(fp.fail_count(), 1);
}

#[test]
fn latency_ring_keeps_the_newest_first() {
    let mut fp = FaultCounts::new(1);
    for i in 0..(RING_BUFFER_CAPACITY as u64 + 4) {
        fp.record_recovery(true, i);
    }
    let kept = fp.healing_latencies();
    assert_eq!(kept.len(), RING_BUFFER_CAPACITY);
    assert_eq!(kept[0], RING_BUFFER_CAPACITY as u64 + 3);
    assert_eq!(kept[RING_BUFFER_CAPACITY - 1], 4);
}

use codira::collector::{FaultEventCollector, FaultSource, TtlWatch, FAULT_CLASS_MEMORY_LEAK};

const MS: u64 = 1_000_000;

#[test]
fn records_and_drains_hardware_and_guard_faults() {
    let mut collector = FaultEventCollector::new();
    collector.record_hardware_trap(0x1, 0, 10);
    collector.record_guard_fault(0x1, 1, 20);
    let drained = collector.drain();
    assert_eq!(drained.len(), 2);
    assert_eq!(drained[0].source, FaultSource::HardwareTrap);
    assert_eq!(drained[1].source, FaultSource::GuardCall);
    assert_eq!(collector.len(), 0);
}

#[test]
fn ttl_watchdog_detects_expired_module() {
    let now: u64 = 5 * MS;
    let mut watch = TtlWatch::default();
    watch.watch(0xAAAA, 10 * MS, now);
    assert!(watch.tick(now).is_empty());

    let late = now + 100 * MS;
    let dead = watch.tick(late);
    assert_eq!(dead, vec![0xAAAA]);
}

#[test]
fn monotonic_memory_produces_memory_leak_fault() {
    let mut collector = FaultEventCollector::with_window(4);
    assert!(collector.record_memory_snapshot(0x1, 100, 1).is_none());
    assert!(collector.record_memory_snapshot(0x1, 110, 2).is_none());
    assert!(collector.record_memory_snapshot(0x1, 121, 3).is_none());
    let event = collector.record_memory_snapshot(0x1, 133, 4).unwrap();
    assert_eq!(event.fault_class, FAULT_CLASS_MEMORY_LEAK);
    assert_eq!(event.source, FaultSource::MonotonicMemoryLeak);
}

#[test]
fn oscillating_memory_does_not_trip_leak() {
    let mut collector = FaultEventCollector::with_window(4);
    for usage in [100u64, 90, 110, 105] {
        assert!(collector.record_memory_snapshot(0x9, usage, 0).is_none());
    }
    assert_eq!(collector.drain().len(), 0);
}

#[test]
fn heartbeat_reports_lateness_and_resets_the_deadline() {
    let mut watch = TtlWatch::new();
    assert!(!watch.acknowledge(1, 0));
    watch.watch(1, 10 * MS, 0);
    assert!(!watch.acknowledge(1, 10 * MS));
    assert!(watch.acknowledge(1, 21 * MS));
    assert!(watch.tick(30 * MS).is_empty());
    assert_eq!(watch.tick(32 * MS), vec![1]);
    watch.unwatch(1);
    assert!(watch.watched().is_empty());
}

#[test]
fn ttl_tick_queues_timeout_faults() {
    let mut collector = FaultEventCollector::new();
    collector.watch(3, 5, 0);
    collector.watch(4, 50, 0);
    assert_eq!(collector.ttl_tick(10), 1);
    let events = collector.drain();
    assert_eq!(events.len(), 1);
    assert_eq!(events[0].site_id, 3);
    assert_eq!(events[0].fault_class, 2);
    assert_eq!(events[0].source, FaultSource::TtlProbe);
    assert_eq!(events[0].timestamp, 10);
    let mut watched = collector.watched();
    watched.sort();
    assert_eq!(watched, vec![3, 4]);
}

#[test]
fn leak_window_slides_over_old_snapshots() {
    let mut collector = FaultEventCollector::with_window(3);
    assert!(collector.record_memory_snapshot(7, 50, 0).is_none());
    assert!(collector.record_memory_snapshot(7, 10, 0).is_none());
    assert!(collector.record_memory_snapshot(7, 20, 0).is_none());
    // The window is now [10, 20, 30]: non-decreasing.
    let event = collector.record_memory_snapshot(7, 30, 42).unwrap();
    assert_eq!(event.site_id, 7);
    assert_eq!(event.timestamp, 42);
    assert_eq!(collector.len(), 1);
    assert_eq!(collector.tracked_memory_sites(), 1);
}

#[test]
fn zero_window_is_raised_to_one() {
    let mut collector = FaultEventCollector::with_window(0);
    assert!(collector.record_memory_snapshot(1, 5, 0).is_some());
    assert!(!collector.is_empty());
}

use codira::hardware::HardwareTelemetry;

#[test]
fn faulty_core_is_excluded_from_healthy_pool() {
    let mut telemetry = HardwareTelemetry::new();
    telemetry.report_faulty_core(2);
    telemetry.report_faulty_core(5);
    let healthy = telemetry.healthy_cores(&[0, 1, 2, 3, 4, 5, 6]);
    assert_eq!(healthy, vec![0, 1, 3, 4, 6]);
}

#[test]
fn preferred_healthy_core_is_kept() {
    let mut telemetry = HardwareTelemetry::new();
    telemetry.report_faulty_core(2);
    assert_eq!(telemetry.pick_healthy_core(3, &[0, 1, 2, 3]), Some(3));
    assert_eq!(telemetry.pick_healthy_core(2, &[0, 1, 2, 3]), Some(0));
}

#[test]
fn fully_degraded_machine_returns_none() {
    let mut telemetry = HardwareTelemetry::new();
    telemetry.report_faulty_core(0);
    telemetry.report_throttled_core(1);
    assert_eq!(telemetry.pick_healthy_core(0, &[0, 1]), None);
}

#[test]
fn allocation_skips_poisoned_rows() {
    let mut telemetry = HardwareTelemetry::new();
    telemetry.report_bad_dram_row(0x14000);
    telemetry.report_bad_dram_row(0x15000);
    assert!(telemetry.is_bad_address(0x14ABC));
    assert!(!telemetry.is_bad_address(0x13ABC));

    let address = telemetry.alloc_avoiding_bad_rows(0x13000, 0x2000);
    assert_eq!(address, 0x16000);
    assert!(!telemetry.allocation_touches_bad_row(address, 0x2000));
}

#[test]
fn small_allocation_can_skip_into_hole() {
    let mut telemetry = HardwareTelemetry::new();
    telemetry.report_bad_dram_row(0x14000);
    assert_eq!(telemetry.alloc_avoiding_bad_rows(0x14000, 0x1000), 0x15000);
}

#[test]
fn soft_errors_accumulate_and_threshold() {
    let mut telemetry = HardwareTelemetry::new();
    telemetry.note_soft_error(0x4000);
    telemetry.note_soft_error(0x4000);
    telemetry.note_soft_error(0x4020);
    assert_eq!(telemetry.soft_errors_at(0x4000), 2);
    assert_eq!(telemetry.soft_errors_at(0x4020), 1);
    assert!(telemetry.soft_errors_exceed(0x4000, 2));
    assert!(!telemetry.soft_errors_exceed(0x4000, 3));
    assert_eq!(
        telemetry.soft_error_summary(),
        vec![(0x4000, 2), (0x4020, 1)]
    );
}

#[test]
fn faulty_report_clears_throttling() {
    let mut telemetry = HardwareTelemetry::new();
    telemetry.report_throttled_core(4);
    assert!(!telemetry.core_is_healthy(4));
    telemetry.report_faulty_core(4);
    assert!(!telemetry.core_is_healthy(4));
    assert!(telemetry.core_is_healthy(3));
}

#[test]
fn healthy_cores_are_sorted_and_keep_repeats() {
    let mut telemetry = HardwareTelemetry::new();
    telemetry.report_throttled_core(7);
    assert_eq!(telemetry.healthy_cores(&[9, 7, 3, 9, 1]), vec![1, 3, 9, 9]);
    assert_eq!(telemetry.pick_healthy_core(7, &[9, 7, 3]), Some(3));
}

#[test]
fn zero_threshold_is_never_exceeded() {
    let mut telemetry = HardwareTelemetry::new();
    telemetry.note_soft_error(0x10);
    assert!(!telemetry.soft_errors_exceed(0x10, 0));
    assert_eq!(telemetry.soft_errors_at(0x20), 0);
}

#[test]
fn unaligned_start_rounds_up_to_a_granule() {
    let telemetry = HardwareTelemetry::new();
    assert_eq!(telemetry.alloc_avoiding_bad_rows(0x1001, 0x10), 0x2000);
    assert_eq!(telemetry.alloc_avoiding_bad_rows(0, 0), 0);
    assert!(!telemetry.allocation_touches_bad_row(0, 0x10000));
}

#[test]
fn touching_checks_every_granule_of_the_span() {
    let mut telemetry = HardwareTelemetry::new();
    telemetry.report_bad_dram_row(0x3000);
    assert!(telemetry.allocation_touches_bad_row(0x1000, 0x3000));
    assert!(!telemetry.allocation_touches_bad_row(0x1000, 0x2000));
    // A span that only grazes a poisoned row at its end touches it.
    assert!(telemetry.allocation_touches_bad_row(0x2FFF, 0x2));
    assert!(!telemetry.allocation_touches_bad_row(0x2FFF, 0x1));
}

#[test]
fn an_unaligned_span_is_checked_up_to_its_last_row() {
    let mut t = HardwareTelemetry::new();
    t.report_bad_dram_row(0x14000);
    assert!(t.allocation_touches_bad_row(0x13800, 0x1000));
    assert!(!t.allocation_touches_bad_row(0x13800, 0x800));
    assert!(!t.allocation_touches_bad_row(0x14000, 0));
}

#[test]
fn checked_allocation_reports_instead_of_failing() {
    let mut hw = HardwareTelemetry::new();
    hw.report_bad_dram_row(0x14000);
    let a = hw.try_alloc_avoiding_bad_rows(0x13000, 0x2000).unwrap();
    assert_eq!(a, hw.alloc_avoiding_bad_rows(0x13000, 0x2000));
    assert!(!hw.allocation_touches_bad_row(a, 0x2000));
    assert_eq!(hw.try_alloc_avoiding_bad_rows(u64::MAX, 1), None);
}

#[test]
fn health_follows_the_reports() {
    let mut t = HardwareTelemetry::new();
    t.report_throttled_core(2);
    t.report_bad_dram_row(0x1000);
    t.report_faulty_core(2);
    t.report_faulty_core(5);
    t.note_soft_error(0x40);
    for core in 0..8u8 {
        assert_eq!(t.core_is_healthy(core), core != 2 && core != 5, "core {core}");
    }
}

use codira::deficiency::{DeficiencyWindow, HealingDeficiencyReport};

#[test]
fn json_shape_matches_spec_example() {
    let report = HealingDeficiencyReport {
        site_id: "0xDEADBEEF".to_owned(),
        module: "network::http::client".to_owned(),
        fault_class: "ConnectionRefused".to_owned(),
        dominant_strategy_success_rate: 4,
        window_size: 100,
        suggested_action: "add_strategy:SubstituteAlternate or extend_contract".to_owned(),
    };
    let json = report.to_json();
    assert!(json.contains("\"site_id\": \"0xDEADBEEF\""));
    assert!(json.contains("\"module\": \"network::http::client\""));
    assert!(json.contains("\"fault_class\": \"ConnectionRefused\""));
    assert!(json.contains("\"dominant_strategy_success_rate\": 4"));
    assert!(json.contains("\"window_size\": 100"));
}

#[test]
fn json_is_the_whole_document() {
    let report = HealingDeficiencyReport {
        site_id: "0x01".to_owned(),
        module: "m".to_owned(),
        fault_class: "Timeout".to_owned(),
        dominant_strategy_success_rate: 0,
        window_size: 10,
        suggested_action: "a".to_owned(),
    };
    assert_eq!(
        report.to_json(),
        "{\n  \"site_id\": \"0x01\",\n  \"module\": \"m\",\n  \"fault_class\": \"Timeout\",\n  \"dominant_strategy_success_rate\": 0,\n  \"window_size\": 10,\n  \"suggested_action\": \"a\"\n}"
    );
}

#[test]
fn window_reports_counts_only_when_full_of_the_site() {
    let mut w = DeficiencyWindow::new(4);
    assert_eq!(w.observe(1, "retry", false), None);
    assert_eq!(w.observe(1, "retry", true), None);
    assert_eq!(w.observe(2, "retry", false), None);
    // Full, but one event belongs to site 2.
    assert_eq!(w.observe(1, "default", false), None);
    // The oldest event drops out: [1 retry ok, 2, 1 default, 1 default].
    assert_eq!(w.observe(1, "default", true), None);
    // [2, 1 default, 1 default, 1 retry]: still site 2 inside.
    assert_eq!(w.observe(1, "retry", false), None);
    // [1 default x2, 1 retry x2]: first maximal strategy is `default`.
    assert_eq!(w.observe(1, "retry", false), Some((2, 1)));
}

#[test]
fn rearm_drops_the_site_history() {
    let mut w = DeficiencyWindow::new(2);
    assert_eq!(w.observe(5, "retry", false), None);
    assert_eq!(w.observe(5, "retry", false), Some((2, 0)));
    assert!(!w.is_reported(5));
    w.mark_reported(5);
    assert!(w.is_reported(5));
    w.rearm(5);
    assert!(!w.is_reported(5));
    assert_eq!(w.observe(5, "retry", true), None);
    assert_eq!(w.observe(5, "retry", true), Some((2, 2)));
}

#[test]
fn a_site_reports_once_until_rearmed() {
    let mut w = DeficiencyWindow::new(2);
    assert!(!w.report_once(7, false));
    assert!(w.report_once(7, true));
    assert!(!w.report_once(7, true));
    assert!(w.report_once(8, true));
    w.rearm(7);
    assert!(w.report_once(7, true));
}

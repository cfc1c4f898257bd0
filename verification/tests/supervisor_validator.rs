use codira::supervisor_validator::{supervisor_diagnostics, StructureDiagnostic, SupervisorItem};

fn entry(name: &str) -> SupervisorItem {
    SupervisorItem::Entry { name: Some(name.to_string()) }
}

fn child(name: &str, body: Vec<SupervisorItem>) -> SupervisorItem {
    SupervisorItem::Child { name: Some(name.to_string()), body: Some(body) }
}

#[test]
fn duplicate_child_name() {
    let block = vec![
        entry("strategy"),
        child("ConnPool", vec![entry("strategy")]),
        child("ConnPool", vec![entry("strategy")]),
    ];
    assert_eq!(
        supervisor_diagnostics(&vec![Some(block)]),
        vec![StructureDiagnostic::DuplicateChild("ConnPool".to_string())]
    );
}

#[test]
fn duplicate_entry_key() {
    let block = vec![entry("strategy"), entry("strategy")];
    assert_eq!(
        supervisor_diagnostics(&vec![Some(block)]),
        vec![StructureDiagnostic::DuplicateEntry("strategy".to_string())]
    );
}

#[test]
fn duplicate_entry_key_in_child() {
    let block = vec![
        entry("strategy"),
        child("ConnPool", vec![entry("strategy"), entry("strategy")]),
    ];
    assert_eq!(
        supervisor_diagnostics(&vec![Some(block)]),
        vec![StructureDiagnostic::DuplicateEntry("strategy".to_string())]
    );
}

#[test]
fn no_duplicates_is_clean() {
    let block = vec![
        entry("strategy"),
        entry("max_restarts"),
        child("ConnPool", vec![entry("strategy")]),
        child("CacheLayer", vec![entry("strategy")]),
    ];
    assert!(supervisor_diagnostics(&vec![Some(block)]).is_empty());
}

#[test]
fn children_and_entries_have_separate_namespaces() {
    let block = vec![entry("pool"), child("pool", vec![]), SupervisorItem::Entry { name: None }];
    assert!(supervisor_diagnostics(&vec![Some(block), None]).is_empty());
}

#[test]
fn nested_findings_follow_their_child() {
    let block = vec![
        child("A", vec![entry("k"), entry("k")]),
        child("A", vec![]),
        entry("x"),
        entry("x"),
    ];
    let second = vec![entry("y"), entry("y")];
    assert_eq!(
        supervisor_diagnostics(&vec![Some(block), Some(second)]),
        vec![
            StructureDiagnostic::DuplicateEntry("k".to_string()),
            StructureDiagnostic::DuplicateChild("A".to_string()),
            StructureDiagnostic::DuplicateEntry("x".to_string()),
            StructureDiagnostic::DuplicateEntry("y".to_string()),
        ]
    );
}

use codira::supervisor::{
    timeout_fault_tag, ChildMode, ChildSpec, ChildType, RestartStrategy, SupervisorSpec,
    SupervisorTree,
};

const SECOND: u64 = 1_000_000_000;

fn sample_tree() -> SupervisorTree {
    let mut tree = SupervisorTree::new();
    let spec = SupervisorSpec::new("DatabaseConnection", RestartStrategy::OneForAll)
        .with_restart_intensity(5, 60)
        .with_child(ChildSpec {
            name: "ConnPool".into(),
            module: "ConnectionPool".into(),
            child_type: ChildType::Transient,
            healing_memoizable: true,
            idempotent_up_to: 0,
        })
        .with_child(ChildSpec {
            name: "CacheLayer".into(),
            module: "Cache".into(),
            child_type: ChildType::Permanent,
            healing_memoizable: false,
            idempotent_up_to: 3,
        });
    tree.register_supervisor(spec, 0);
    tree
}

#[test]
fn registers_and_looks_up_supervisors() {
    let tree = sample_tree();
    let sup = tree.get("DatabaseConnection").unwrap();
    assert_eq!(sup.spec.strategy, RestartStrategy::OneForAll);
    assert_eq!(sup.children.len(), 2);
    assert_eq!(sup.spec.max_restarts, 5);
    assert_eq!(sup.spec.max_time, 60);
}

#[test]
fn restart_intensity_bound_is_enforced() {
    let mut tree = sample_tree();
    let mut tripped = false;
    for i in 0..6 {
        tripped = tree.record_child_restart("DatabaseConnection", "CacheLayer", i * SECOND);
    }
    assert!(tripped);
}

#[test]
fn restart_marks_child_restarting_then_normal() {
    let mut tree = sample_tree();
    tree.record_child_restart("DatabaseConnection", "ConnPool", SECOND);
    let sup = tree.get("DatabaseConnection").unwrap();
    assert_eq!(sup.children[0].mode, ChildMode::Restarting);
    assert_eq!(sup.children[0].restart_count, 1);

    tree.child_restarted("DatabaseConnection", "ConnPool", 2 * SECOND);
    let sup = tree.get("DatabaseConnection").unwrap();
    assert_eq!(sup.children[0].mode, ChildMode::Normal);
    assert_eq!(sup.children[0].last_start, Some(2 * SECOND));
}

#[test]
fn restarts_outside_the_window_are_forgotten() {
    let mut tree = sample_tree();
    for i in 0..5 {
        assert!(!tree.record_child_restart("DatabaseConnection", "CacheLayer", i * SECOND));
    }
    // 120 s later the earlier five no longer count.
    assert!(!tree.record_child_restart("DatabaseConnection", "CacheLayer", 125 * SECOND));
    let sup = tree.get("DatabaseConnection").unwrap();
    assert_eq!(sup.recent_restarts, vec![125 * SECOND]);
    assert_eq!(sup.children[1].restart_count, 6);
}

#[test]
fn unknown_supervisor_is_not_escalated() {
    let mut tree = sample_tree();
    assert!(!tree.record_child_restart("Nope", "CacheLayer", 0));
    assert!(tree.get("Nope").is_none());
    assert_eq!(timeout_fault_tag(), 2);
}

#[test]
fn re_registering_replaces_the_state() {
    let mut tree = sample_tree();
    tree.record_child_restart("DatabaseConnection", "ConnPool", 0);
    let spec = SupervisorSpec::new("DatabaseConnection", RestartStrategy::OneForOne);
    tree.register_supervisor(spec, 9);
    let names = tree.supervisor_names();
    assert_eq!(names, vec!["DatabaseConnection".to_string()]);
    let sup = tree.get("DatabaseConnection").unwrap();
    assert_eq!(sup.spec.strategy, RestartStrategy::OneForOne);
    assert!(sup.children.is_empty());
    assert!(sup.recent_restarts.is_empty());
    assert!(tree.hierarchy_children("DatabaseConnection").is_empty());
}

#[test]
fn hierarchy_lists_children_in_start_order() {
    let tree = sample_tree();
    assert_eq!(
        tree.hierarchy_children("DatabaseConnection"),
        vec!["ConnPool".to_string(), "CacheLayer".to_string()]
    );
    assert!(tree.hierarchy_children("Other").is_empty());
}

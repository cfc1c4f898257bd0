use codira::const_cycles::{
    detect_const_cycles, path_references, strongly_connected_cycles, ConstCycle, ConstDecl, PathRef,
};
use codira::diagnostic_messages::{cyclic_const_definition, cycle_path};

fn binding(name: &str, references: &[&str]) -> ConstDecl {
    ConstDecl {
        name: name.to_string(),
        references: references.iter().map(|r| r.to_string()).collect(),
    }
}

fn names(cycle: &ConstCycle) -> Vec<&str> {
    cycle.names.iter().map(|n| n.as_str()).collect()
}

#[test]
fn direct_const_cycle_is_rejected() {
    // let A: i32 = B; let B: i32 = A;
    let cycles = detect_const_cycles(&vec![binding("A", &["B"]), binding("B", &["A"])]);
    assert_eq!(cycles.len(), 1);
    assert_eq!(cycles[0].members, vec![0, 1]);
    assert_eq!(names(&cycles[0]), vec!["A", "B"]);
    assert_eq!(
        cyclic_const_definition(&cycle_path(&cycles[0].names)),
        "module-level bindings form a dependency cycle: A -> B"
    );
}

#[test]
fn self_referential_const_is_rejected() {
    // let LOOP: i32 = LOOP;
    let cycles = detect_const_cycles(&vec![binding("LOOP", &["LOOP"])]);
    assert_eq!(cycles.len(), 1);
    assert_eq!(names(&cycles[0]), vec!["LOOP"]);
}

#[test]
fn longer_const_cycle_is_rejected() {
    // let A: i32 = B; let B: i32 = C; let C: i32 = A; let FINE: i32 = 7;
    let cycles = detect_const_cycles(&vec![
        binding("A", &["B"]),
        binding("B", &["C"]),
        binding("C", &["A"]),
        binding("FINE", &[]),
    ]);
    assert_eq!(cycles.len(), 1);
    assert_eq!(names(&cycles[0]), vec!["A", "B", "C"]);
}

#[test]
fn acyclic_chain_is_accepted() {
    let cycles = detect_const_cycles(&vec![
        binding("A", &[]),
        binding("B", &["A"]),
        binding("C", &["B"]),
        binding("D", &["C"]),
        binding("E", &["D"]),
    ]);
    assert!(cycles.is_empty());
}

#[test]
fn diamond_dependency_is_not_a_cycle() {
    let cycles = detect_const_cycles(&vec![
        binding("A", &[]),
        binding("B", &["A"]),
        binding("C", &["A"]),
        binding("D", &["B", "C"]),
    ]);
    assert!(cycles.is_empty());
}

#[test]
fn reference_to_a_function_is_not_a_dependency_edge() {
    // func helper() -> i32 { 1 } let VALUE: i32 = helper();
    let cycles = detect_const_cycles(&vec![binding("VALUE", &["helper"])]);
    assert!(cycles.is_empty());
}

#[test]
fn module_level_bindings() {
    // public let RELAXED: i32 = 0; let DERIVED: i32 = RELAXED; let COMPUTED: i64 = 1 + 2;
    let cycles = detect_const_cycles(&vec![
        binding("RELAXED", &[]),
        binding("DERIVED", &["RELAXED"]),
        binding("COMPUTED", &[]),
    ]);
    assert!(cycles.is_empty());
}

#[test]
fn a_cycle_lists_its_bindings_in_dependency_order() {
    // A = C; B = A; C = B: the search goes A, C, B along the dependencies.
    let cycles = detect_const_cycles(&vec![
        binding("A", &["C"]),
        binding("B", &["A"]),
        binding("C", &["B"]),
    ]);
    assert_eq!(cycles.len(), 1);
    assert_eq!(names(&cycles[0]), vec!["A", "C", "B"]);
    assert_eq!(cycle_path(&cycles[0].names), "A -> C -> B");
}

#[test]
fn cycles_are_reported_as_their_components_complete() {
    // A names itself and B; B names itself: B's component completes first.
    let cycles = detect_const_cycles(&vec![binding("A", &["A", "B"]), binding("B", &["B"])]);
    assert_eq!(cycles.len(), 2);
    assert_eq!(names(&cycles[0]), vec!["B"]);
    assert_eq!(names(&cycles[1]), vec!["A"]);
}

#[test]
fn a_name_bound_twice_means_its_last_binding() {
    // X = Y; Y = 1; Y = X: the reference to Y is to the second Y.
    let cycles = detect_const_cycles(&vec![
        binding("X", &["Y"]),
        binding("Y", &[]),
        binding("Y", &["X"]),
    ]);
    assert_eq!(cycles.len(), 1);
    assert_eq!(cycles[0].members, vec![0, 2]);
}

#[test]
fn components_in_a_larger_graph() {
    // 0 -> 1 -> 2 -> 0, 2 -> 3, 3 -> 4 -> 3, 5 alone
    let edges = vec![vec![1], vec![2], vec![0, 3], vec![4], vec![3], vec![]];
    let found = strongly_connected_cycles(&edges);
    assert_eq!(found, vec![vec![3, 4], vec![0, 1, 2]]);
}

#[test]
fn no_bindings_no_cycles() {
    assert!(detect_const_cycles(&Vec::new()).is_empty());
    assert!(strongly_connected_cycles(&Vec::new()).is_empty());
}

fn path(qualified: bool, name: Option<&str>) -> PathRef {
    PathRef { qualified, name: name.map(|n| n.to_string()) }
}

#[test]
fn references_keep_first_appearance_order_without_repeats() {
    let paths = vec![
        path(false, Some("B")),
        path(false, Some("A")),
        path(false, Some("B")),
        path(false, Some("C")),
    ];
    assert_eq!(path_references(&paths), vec!["B".to_string(), "A".to_string(), "C".to_string()]);
}

#[test]
fn qualified_and_nameless_paths_are_not_references() {
    let paths = vec![
        path(true, Some("other::X")),
        path(false, None),
        path(false, Some("Y")),
        path(true, Some("Y")),
    ];
    assert_eq!(path_references(&paths), vec!["Y".to_string()]);
}

#[test]
fn no_paths_no_references() {
    assert!(path_references(&Vec::new()).is_empty());
}

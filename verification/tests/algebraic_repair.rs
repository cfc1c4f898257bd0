use codira::algebraic_repair::BinarySearchTree;

fn sample() -> BinarySearchTree {
    let mut t = BinarySearchTree::new();
    for k in [40, 20, 60, 10, 30, 50, 70] {
        t.insert(k);
    }
    t
}

#[test]
fn valid_tree_reports_intact() {
    let mut t = sample();
    assert!(t.is_valid());
    let report = t.repair();
    assert!(report.was_intact);
    assert_eq!(report.keys_preserved, 7);
}

#[test]
fn insert_is_idempotent_for_duplicate_keys() {
    let mut t = BinarySearchTree::new();
    assert!(t.insert(5));
    assert!(!t.insert(5));
    assert!(t.is_valid(), "single node is trivially valid");
    assert!(t.min() == Some(5));
    assert_eq!(t.max(), Some(5));
}

#[test]
fn degenerate_chain_is_valid_but_unbalanced() {
    let mut t = BinarySearchTree::new();
    for k in 1..=10 {
        t.insert(k);
    }
    assert_eq!(t.min(), Some(1));
    assert_eq!(t.max(), Some(10));
    assert!(!t.is_valid());
    let report = t.repair();
    assert!(!report.was_intact);
    assert!(t.is_valid(), "repair must restore the invariant");
    assert_eq!(report.keys_preserved, 10);
}

#[test]
fn corrupt_tree_is_repaired_into_valid_canonical_form() {
    let mut t = sample();
    let root = t.root.as_mut().unwrap();
    let old_left = root.left.take();
    root.left = root.right.take();
    root.right = old_left;
    assert!(!t.is_valid(), "corruption must be detected on read");

    let report = t.repair();
    assert!(!report.was_intact);
    assert!(t.is_valid(), "repair must restore the invariant");
    assert_eq!(report.keys_preserved, 7);
    assert_eq!(t.min(), Some(10));
    assert_eq!(t.max(), Some(70));
}

#[test]
fn repair_rees_is_deterministic() {
    let mut a = BinarySearchTree::new();
    for k in 1..=15 {
        a.insert(k);
    }
    let first = a.repair();
    assert!(!first.was_intact);

    let mut b = BinarySearchTree::new();
    for k in 1..=15 {
        b.insert(k);
    }
    let second = b.repair();

    assert_eq!(first.keys_preserved, second.keys_preserved);
    assert!(a.is_valid());
    assert!(b.is_valid());

    let root_a = a.root.as_deref().unwrap();
    let root_b = b.root.as_deref().unwrap();
    assert_eq!(root_a.key, root_b.key);
    assert_eq!(a.len(), b.len());
}

#[test]
fn canonical_root_is_the_median_key() {
    let mut t = BinarySearchTree::new();
    for k in 1..=7 {
        t.insert(k);
    }
    let report = t.repair();
    assert!(!report.was_intact);
    let root = t.root.as_deref().unwrap();
    assert_eq!(root.key, 4);
    assert_eq!(root.left.as_deref().unwrap().key, 2);
    assert_eq!(root.right.as_deref().unwrap().key, 6);
}

#[test]
fn repair_twice_is_intact_and_unchanged() {
    let mut t = BinarySearchTree::new();
    for k in [5, 4, 3, 2, 1] {
        t.insert(k);
    }
    let first = t.repair();
    assert!(!first.was_intact);
    let root_key = t.root.as_deref().unwrap().key;
    let second = t.repair();
    assert!(second.was_intact);
    assert_eq!(second.keys_preserved, 5);
    assert_eq!(t.root.as_deref().unwrap().key, root_key);
}

#[test]
fn repair_collapses_duplicate_corrupt_copies() {
    let mut t = BinarySearchTree::new();
    t.insert(10);
    t.insert(5);
    // A corrupt duplicate of 10 under the right child: the keys stay {5, 10}.
    t.root.as_mut().unwrap().right = Some(Box::new(codira::algebraic_repair::BstNode {
        key: 10,
        left: None,
        right: None,
    }));
    assert_eq!(t.len(), 3);
    assert!(!t.is_valid());
    let report = t.repair();
    assert!(!report.was_intact);
    assert_eq!(report.keys_preserved, 2);
    assert_eq!(t.len(), 2);
    assert!(t.is_valid());
}

#[test]
fn empty_tree_has_no_extremes_and_is_valid() {
    let mut t = BinarySearchTree::new();
    assert!(t.is_empty());
    assert_eq!(t.min(), None);
    assert_eq!(t.max(), None);
    assert!(t.is_valid());
    let report = t.repair();
    assert!(report.was_intact);
    assert_eq!(report.keys_preserved, 0);
    assert_eq!(t.len(), 0);
}

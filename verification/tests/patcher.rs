use codira::patcher::{PatchSites, PatchableSlot, StrategyInterner};

type StrategyFn = fn() -> i64;

fn retry() -> i64 {
    1
}
fn fallback() -> i64 {
    2
}
fn degrade() -> i64 {
    3
}

#[test]
fn interner_assigns_stable_tags() {
    let interner = StrategyInterner::<StrategyFn>::new(vec![
        ("retry", retry),
        ("fallback", fallback),
        ("degrade", degrade),
    ]);
    assert_eq!(interner.tag("fallback"), Some(1));
    assert_eq!(interner.name(2), "degrade");
    assert_eq!(interner.strategy(0)(), 1);
}

#[test]
fn cas_patch_ignores_expected_mismatch() {
    let interner = StrategyInterner::<StrategyFn>::new(vec![("retry", retry), ("fallback", fallback)]);
    let slot = PatchableSlot::new(&interner, 0);

    assert!(!slot.patch_if(5, 1));
    assert!(slot.dispatches(0));

    assert!(slot.patch_if(0, 1));
    assert!(slot.dispatches(1));
}

#[test]
fn patch_option_swaps_strategy_atomically() {
    let interner = StrategyInterner::<StrategyFn>::new(vec![
        ("retry", retry),
        ("fallback", fallback),
        ("degrade", degrade),
    ]);
    let slot = PatchableSlot::new(&interner, 0);
    assert!(slot.dispatches(0));
    assert_eq!(interner.strategy(slot.active_tag())(), 1);

    let tag = interner.tag("fallback").unwrap();
    assert!(slot.patch_if(slot.active_tag(), tag));
    assert!(slot.dispatches(1));
    assert_eq!(interner.strategy(slot.active_tag())(), 2);
}

#[test]
fn unknown_names_have_no_tag_and_duplicates_resolve_to_the_first() {
    let interner = StrategyInterner::<StrategyFn>::new(vec![
        ("retry", retry),
        ("retry", degrade),
    ]);
    assert_eq!(interner.tag("restart"), None);
    assert_eq!(interner.tag("retry"), Some(0));
    assert_eq!(interner.len(), 2);
}

#[test]
fn patch_sites_register_slots_in_order() {
    let interner = StrategyInterner::<StrategyFn>::new(vec![("retry", retry), ("fallback", fallback)]);
    let mut sites = PatchSites::default();
    assert!(sites.is_empty());
    assert_eq!(sites.add(&interner, 1), 0);
    assert_eq!(sites.add(&interner, 0), 1);
    assert_eq!(sites.len(), 2);
    assert!(sites.slot(0).dispatches(1));
    assert!(sites.slot(1).dispatches(0));
}

use codira::contract::{FaultClass, HealingContract, HealingStrategy, HealingTier};

#[test]
fn empty_fault_set_guards_everything() {
    let contract = HealingContract::new(1, vec![], vec![HealingStrategy::ReturnDefault]);
    assert!(contract.guards(&FaultClass::NullDereference));
    assert!(contract.guards(&FaultClass::Timeout));
}

#[test]
fn fault_guarding_is_explicit() {
    let contract = HealingContract::new(
        1,
        vec![FaultClass::Timeout],
        vec![HealingStrategy::ReturnDefault],
    );
    assert!(contract.guards(&FaultClass::Timeout));
    assert!(!contract.guards(&FaultClass::NullDereference));
}

#[test]
fn tier_latency_budgets_are_monotonic() {
    assert!(HealingTier::Expression.latency_budget() < HealingTier::Function.latency_budget());
    assert!(HealingTier::Function.latency_budget() < HealingTier::Module.latency_budget());
}

#[test]
fn strategy_tiers_match_spec_table_1() {
    assert_eq!(HealingStrategy::ReturnDefault.tier(), HealingTier::Expression);
    assert_eq!(HealingStrategy::ReturnCached.tier(), HealingTier::Expression);
    assert_eq!(HealingStrategy::RetryWithBackoff(3).tier(), HealingTier::Function);
    assert_eq!(HealingStrategy::SubstituteAlternate("f2").tier(), HealingTier::Function);
    assert_eq!(HealingStrategy::DegradeGracefully.tier(), HealingTier::Module);
    assert_eq!(HealingStrategy::IsolateAndRestart.tier(), HealingTier::Module);
}

#[test]
fn latency_budgets_in_nanoseconds() {
    assert_eq!(HealingTier::Expression.latency_budget(), 1_000);
    assert_eq!(HealingTier::Function.latency_budget(), 10_000_000);
    assert_eq!(HealingTier::Module.latency_budget(), 500_000_000);
    assert_eq!(
        HealingTier::Recompilation.latency_budget(),
        std::time::Duration::MAX.as_nanos()
    );
}

#[test]
fn names_render_like_the_display_forms() {
    assert_eq!(HealingStrategy::RetryWithBackoff(3).to_string(), "RetryWithBackoff(3)");
    assert_eq!(HealingStrategy::RetryWithBackoff(120).to_string(), "RetryWithBackoff(120)");
    assert_eq!(
        HealingStrategy::SubstituteAlternate("fetch_fallback").to_string(),
        "SubstituteAlternate(fetch_fallback)"
    );
    assert_eq!(HealingStrategy::PropagateToParent.to_string(), "PropagateToParent");
    assert_eq!(FaultClass::Custom("disk_full").to_string(), "disk_full");
    assert_eq!(FaultClass::ConnectionRefused.to_string(), "ConnectionRefused");
    assert_eq!(HealingTier::Recompilation.to_string(), "recompilation");
}

#[test]
fn custom_faults_match_by_name() {
    let contract = HealingContract::new(
        7,
        vec![FaultClass::Custom("disk_full")],
        vec![HealingStrategy::DegradeGracefully],
    );
    let name = String::from("disk_full");
    let leaked: &'static str = Box::leak(name.into_boxed_str());
    assert!(contract.guards(&FaultClass::Custom(leaked)));
    assert!(!contract.guards(&FaultClass::Custom("disk_empty")));
    assert!(!contract.guards(&FaultClass::Timeout));
}

#[test]
fn builders_keep_the_contract_and_attach_closures() {
    let contract = HealingContract::new(9, vec![], vec![HealingStrategy::ReturnCached])
        .with_postcondition(|bytes: &[u8]| !bytes.is_empty())
        .with_default(|| vec![0u8]);
    assert_eq!(contract.site_id, 9);
    assert_eq!(contract.strategies(), &[HealingStrategy::ReturnCached]);
    let post = contract.postcondition.as_ref().unwrap();
    assert!(post(&[1]));
    assert!(!post(&[]));
    assert_eq!((contract.default_value.as_ref().unwrap())(), vec![0u8]);
}

#[test]
fn a_contract_renders_its_site_faults_and_strategies() {
    let c = HealingContract::new(
        0x2a,
        vec![FaultClass::Timeout, FaultClass::Custom("Db")],
        vec![HealingStrategy::RetryWithBackoff(3), HealingStrategy::ReturnDefault],
    );
    assert_eq!(
        c.to_string(),
        "HC(site=0x2a, faults=[Timeout, Db], strategies=[RetryWithBackoff(3), ReturnDefault])"
    );
}

#[test]
fn a_contract_guarding_everything_renders_an_empty_fault_list() {
    let c = HealingContract::new(0, Vec::new(), vec![HealingStrategy::PropagateToParent]);
    assert_eq!(c.to_string(), "HC(site=0x0, faults=[], strategies=[PropagateToParent])");
}

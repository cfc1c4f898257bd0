use codira::contract::{FaultClass, HealingContract, HealingStrategy};
use codira::engine::{backoff_delay, fault_tag, is_strategy_feasible, order_strategies};
use codira::trap::{classify, fault_info_from_record, FaultKind};

#[test]
fn exception_codes_classify_into_fault_kinds() {
    assert_eq!(classify(0xC000_0005u32 as i32), Some(FaultKind::AccessViolation));
    assert_eq!(classify(0xC000_0094u32 as i32), Some(FaultKind::IntegerDivideByZero));
    assert_eq!(classify(0xC000_008Eu32 as i32), Some(FaultKind::FloatDivideByZero));
    assert_eq!(classify(0xC000_0090u32 as i32), Some(FaultKind::FloatInvalidOperation));
    assert_eq!(classify(0xC000_001Du32 as i32), Some(FaultKind::IllegalInstruction));
    assert_eq!(classify(0), None);
}

#[test]
fn access_violations_keep_the_accessed_address() {
    let info = fault_info_from_record(0xC000_0005u32 as i32, 0x1000, 2, 0xdead).unwrap();
    assert_eq!(info.faulting_address, Some(0xdead));
    assert_eq!(info.instruction_pointer, 0x1000);
    let short = fault_info_from_record(0xC000_0005u32 as i32, 0x1000, 1, 0xdead).unwrap();
    assert_eq!(short.faulting_address, None);
    let div = fault_info_from_record(0xC000_0094u32 as i32, 0x2000, 2, 0xdead).unwrap();
    assert_eq!(div.faulting_address, None);
    assert!(fault_info_from_record(7, 0, 0, 0).is_none());
    assert_eq!(FaultKind::IllegalInstruction.to_string(), "illegal instruction");
}

#[test]
fn fault_tags_and_backoff() {
    assert_eq!(fault_tag(&FaultClass::Timeout), 2);
    assert_eq!(fault_tag(&FaultClass::Custom("x")), 0xFF);
    assert_eq!(backoff_delay(0), 50);
    assert_eq!(backoff_delay(3), 400);
    assert_eq!(backoff_delay(6), 3200);
    assert_eq!(backoff_delay(7), 5000);
    assert_eq!(backoff_delay(40), 5000);
}

#[test]
fn selected_strategy_moves_to_the_front() {
    let strategies = vec![
        HealingStrategy::ReturnDefault,
        HealingStrategy::RetryWithBackoff(3),
        HealingStrategy::PropagateToParent,
    ];
    let ordered = order_strategies(&strategies, Some("RetryWithBackoff(3)"));
    assert_eq!(
        ordered,
        vec![
            HealingStrategy::RetryWithBackoff(3),
            HealingStrategy::ReturnDefault,
            HealingStrategy::PropagateToParent,
        ]
    );
    assert_eq!(order_strategies(&strategies, None), strategies);
    assert_eq!(order_strategies(&strategies, Some("Unknown")), strategies);
}

#[test]
fn feasibility_follows_the_declared_capabilities() {
    let mut contract = HealingContract::new(
        1,
        vec![],
        vec![HealingStrategy::ReturnDefault, HealingStrategy::RetryWithBackoff(3)],
    );
    contract.idempotent_up_to = 3;
    contract.alternates.push("fallback");
    assert!(!is_strategy_feasible(&contract, &HealingStrategy::ReturnDefault, true));
    assert!(is_strategy_feasible(&contract, &HealingStrategy::RetryWithBackoff(3), true));
    assert!(!is_strategy_feasible(&contract, &HealingStrategy::RetryWithBackoff(4), true));
    assert!(is_strategy_feasible(&contract, &HealingStrategy::SubstituteAlternate("fallback"), true));
    assert!(!is_strategy_feasible(&contract, &HealingStrategy::SubstituteAlternate("fallback"), false));
    assert!(!is_strategy_feasible(&contract, &HealingStrategy::SubstituteAlternate("other"), true));
    assert!(!is_strategy_feasible(&contract, &HealingStrategy::IsolateAndRestart, true));
    assert!(is_strategy_feasible(&contract, &HealingStrategy::PropagateToParent, true));
    let contract = contract.with_default(|| vec![0u8]);
    assert!(is_strategy_feasible(&contract, &HealingStrategy::ReturnDefault, true));
}

fn sample_contract(
    site_id: u64,
) -> HealingContract<fn(&Vec<u8>) -> bool, Box<dyn Fn() -> Vec<u8>>> {
    let mut contract = HealingContract::new(
        site_id,
        vec![FaultClass::NullDereference, FaultClass::Timeout],
        vec![
            HealingStrategy::ReturnDefault,
            HealingStrategy::RetryWithBackoff(3),
            HealingStrategy::PropagateToParent,
        ],
    )
    .with_postcondition(accept_all as fn(&Vec<u8>) -> bool)
    .with_default(Box::new(|| 0i32.to_le_bytes().to_vec()) as Box<dyn Fn() -> Vec<u8>>);
    contract.postcondition = None;
    contract.idempotent_up_to = 3;
    contract
}

fn accept_all(_: &Vec<u8>) -> bool {
    true
}

fn reject_all(_: &Vec<u8>) -> bool {
    false
}

#[test]
fn default_value_recovers_the_site() {
    let contract = sample_contract(1);
    let order = order_strategies(&contract.strategies, None);
    let (result, attempts) =
        codira::engine::run_strategies(&contract, &order, &None, true, FaultClass::NullDereference);
    match result {
        codira::engine::HealingResult::Recovered(value) => {
            assert_eq!(value, 0i32.to_le_bytes().to_vec())
        }
        other => panic!("expected Recovered, got {other:?}"),
    }
    assert_eq!(attempts.len(), 1);
    assert_eq!(attempts[0].position, 0);
    assert!(attempts[0].recovered);
}

#[test]
fn failing_postcondition_tries_every_feasible_strategy_then_escalates() {
    let mut contract = sample_contract(1);
    contract.postcondition = Some(reject_all as fn(&Vec<u8>) -> bool);
    let order = order_strategies(&contract.strategies, None);
    let (result, attempts) =
        codira::engine::run_strategies(&contract, &order, &None, true, FaultClass::Timeout);
    assert!(matches!(
        result,
        codira::engine::HealingResult::Escalated(FaultClass::Timeout)
    ));
    let positions: Vec<usize> = attempts.iter().map(|a| a.position).collect();
    assert_eq!(positions, vec![0, 1, 2]);
    assert!(attempts.iter().all(|a| !a.recovered));
}

#[test]
fn cached_value_is_returned_when_memoizable() {
    let mut contract = sample_contract(1);
    contract.strategies = vec![HealingStrategy::ReturnCached, HealingStrategy::ReturnDefault];
    contract.memoizable = true;
    let order = order_strategies(&contract.strategies, None);
    let cached = Some(vec![9u8, 9]);
    let (result, attempts) =
        codira::engine::run_strategies(&contract, &order, &cached, true, FaultClass::Timeout);
    match result {
        codira::engine::HealingResult::Recovered(value) => assert_eq!(value, vec![9, 9]),
        other => panic!("expected Recovered, got {other:?}"),
    }
    assert_eq!(attempts.len(), 1);
    // Without a cached value the default takes over.
    let (result, attempts) =
        codira::engine::run_strategies(&contract, &order, &None, true, FaultClass::Timeout);
    assert!(matches!(result, codira::engine::HealingResult::Recovered(_)));
    assert_eq!(attempts.len(), 2);
    assert_eq!(attempts[1].position, 1);
}

#[test]
fn infeasible_strategies_are_skipped() {
    let mut contract = sample_contract(1);
    contract.idempotent_up_to = 0;
    contract.default_value = None;
    let order = order_strategies(&contract.strategies, None);
    let (result, attempts) =
        codira::engine::run_strategies(&contract, &order, &None, true, FaultClass::Timeout);
    assert!(matches!(result, codira::engine::HealingResult::Escalated(_)));
    let positions: Vec<usize> = attempts.iter().map(|a| a.position).collect();
    assert_eq!(positions, vec![2]);
}

#[test]
fn an_unregistered_site_escalates_and_a_registered_one_recovers() {
    let contract = sample_contract(1);
    let none: Option<(&codira::contract::HealingContract<fn(&Vec<u8>) -> bool, Box<dyn Fn() -> Vec<u8>>>, &Option<Vec<u8>>)> = None;
    let (result, order, attempts) =
        codira::engine::handle_fault_at(none, None, true, FaultClass::Timeout);
    assert!(matches!(result, codira::engine::HealingResult::Escalated(FaultClass::Timeout)));
    assert!(order.is_empty() && attempts.is_empty());
    let (result, order, attempts) = codira::engine::handle_fault_at(
        Some((&contract, &None)),
        Some("RetryWithBackoff(3)"),
        true,
        FaultClass::NullDereference,
    );
    assert_eq!(order[0], HealingStrategy::RetryWithBackoff(3));
    assert!(matches!(result, codira::engine::HealingResult::Recovered(ref v) if *v == 0i32.to_le_bytes().to_vec()));
    assert_eq!(attempts.len(), 2);
    assert!(!attempts[0].recovered && attempts[1].recovered);
}

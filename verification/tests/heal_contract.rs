use codira::heal_contract::{
    heal_contract_diagnostics, infeasible_reason, nearest, Capabilities, FaultClass,
    FaultElement, HealArguments, HealDiagnostic, Requirement, SiteFacts, Strategy,
    StrategyElement,
};

fn facts(memoizable: bool, snapshot: bool, idempotent_up_to: u32) -> SiteFacts {
    SiteFacts {
        capabilities: Capabilities { memoizable, snapshot, idempotent_up_to },
        has_supervisor: false,
        returns_never: false,
    }
}

fn strategy(written: &str, strategy: Option<Strategy>) -> StrategyElement {
    StrategyElement { written: written.to_string(), strategy, alternate_problem: None }
}

fn fault(written: &str, class: Option<FaultClass>) -> FaultElement {
    FaultElement { written: written.to_string(), class }
}

#[test]
fn fault_class_names_round_trip() {
    for name in FaultClass::builtin_names() {
        assert!(FaultClass::from_name(name).is_some(), "{name}");
    }
    assert_eq!(FaultClass::from_name("Timeout"), Some(FaultClass::Timeout));
    assert_eq!(FaultClass::from_name("timeout"), None);
    assert_eq!(FaultClass::builtin_names().len(), 8);
}

#[test]
fn strategy_names_and_requirements() {
    assert_eq!(Strategy::names().len(), 7);
    assert_eq!(Strategy::RetryWithBackoff(3).name(), "RetryWithBackoff");
    assert_eq!(
        Strategy::RetryWithBackoff(3).feasibility_requirement(),
        Requirement::Idempotent(3)
    );
    assert_eq!(
        Strategy::ReturnDefault(None).feasibility_requirement(),
        Requirement::DefaultableReturn
    );
    assert_eq!(
        Strategy::ReturnDefault(Some(0)).feasibility_requirement(),
        Requirement::Nothing
    );
    assert_eq!(
        Strategy::PropagateToParent.feasibility_requirement(),
        Requirement::Supervisor
    );
}

#[test]
fn nearest_suggests_a_close_name() {
    let names = Strategy::names();
    assert_eq!(nearest("ReturnCahced", &names), Some("ReturnCached"));
    assert_eq!(nearest("  returncached  ", &names), Some("ReturnCached"));
    assert_eq!(nearest("RETRYWITHBACKOF", &names), Some("RetryWithBackoff"));
    assert_eq!(nearest("Completely", &names), None);
    assert_eq!(nearest("", &names), None);
}

#[test]
fn nearest_prefers_the_first_of_equally_close_names() {
    let options: [&'static str; 2] = ["abcd", "abce"];
    assert_eq!(nearest("abcx", &options), Some("abcd"));
    let fault_names = FaultClass::builtin_names();
    assert_eq!(nearest("Timeot", &fault_names), Some("Timeout"));
}

#[test]
fn retry_needs_idempotence_of_enough_attempts() {
    let undeclared = infeasible_reason(&Strategy::RetryWithBackoff(3), &facts(false, false, 0), &None);
    assert_eq!(
        undeclared.as_deref(),
        Some("retrying re-runs this function's effects, so it needs `@idempotent(3)` to declare that calling it 3 times is equivalent to calling it once")
    );
    let too_few = infeasible_reason(&Strategy::RetryWithBackoff(3), &facts(false, false, 2), &None);
    assert_eq!(
        too_few.as_deref(),
        Some("this function declares `@idempotent(2)`, which is fewer than the 3 attempts `RetryWithBackoff(3)` would make")
    );
    assert_eq!(
        infeasible_reason(&Strategy::RetryWithBackoff(3), &facts(false, false, 3), &None),
        None
    );
}

#[test]
fn each_obligation_has_its_reason() {
    let f = facts(false, false, 0);
    assert!(infeasible_reason(&Strategy::ReturnCached, &f, &None).is_some());
    assert!(infeasible_reason(&Strategy::IsolateAndRestart, &f, &None).is_some());
    assert!(infeasible_reason(&Strategy::PropagateToParent, &f, &None).is_some());
    assert_eq!(infeasible_reason(&Strategy::DegradeGracefully, &f, &None), None);
    assert_eq!(infeasible_reason(&Strategy::ReturnDefault(None), &f, &None), None);
    let never = SiteFacts { returns_never: true, ..f };
    assert_eq!(
        infeasible_reason(&Strategy::ReturnDefault(None), &never, &None).as_deref(),
        Some("the function returns `Never`, so there is no default value to return instead")
    );
    let ok = facts(true, true, 0);
    assert_eq!(infeasible_reason(&Strategy::ReturnCached, &ok, &None), None);
    assert_eq!(infeasible_reason(&Strategy::IsolateAndRestart, &ok, &None), None);
    let alt = Strategy::SubstituteAlternate("backup".to_string());
    assert_eq!(
        infeasible_reason(&alt, &ok, &Some("no function `backup`".to_string())).as_deref(),
        Some("no function `backup`")
    );
    assert_eq!(infeasible_reason(&alt, &ok, &None), None);
}

#[test]
fn heal_without_arguments_needs_strategies() {
    let (contract, diags) = heal_contract_diagnostics(None, &facts(false, false, 0));
    assert!(contract.strategies.is_empty());
    assert!(contract.fault_classes.is_empty());
    assert_eq!(diags, vec![HealDiagnostic::EmptyStrategies]);
}

#[test]
fn contract_lowers_known_elements_and_reports_the_rest() {
    let args = HealArguments {
        on: Some(vec![
            fault("Timeout", Some(FaultClass::Timeout)),
            fault("OutOfBound", None),
        ]),
        strategies: Some(vec![
            strategy("DegradeGracefully", Some(Strategy::DegradeGracefully)),
            strategy("ReturnCahced", None),
            strategy("DegradeGracefully", Some(Strategy::DegradeGracefully)),
            strategy("ReturnCached", Some(Strategy::ReturnCached)),
        ]),
        has_postcondition: true,
    };
    let (contract, diags) = heal_contract_diagnostics(Some(&args), &facts(false, false, 0));
    assert_eq!(contract.fault_classes, vec![FaultClass::Timeout]);
    assert_eq!(contract.strategies, vec![Strategy::DegradeGracefully]);
    assert!(contract.has_postcondition);
    assert_eq!(diags.len(), 4);
    assert_eq!(
        diags[0],
        HealDiagnostic::UnknownFaultClass {
            element: 1,
            written: "OutOfBound".to_string(),
            suggestion: Some("OutOfBounds"),
        }
    );
    assert_eq!(
        diags[1],
        HealDiagnostic::UnknownStrategy {
            element: 1,
            written: "ReturnCahced".to_string(),
            suggestion: Some("ReturnCached"),
        }
    );
    assert_eq!(
        diags[2],
        HealDiagnostic::InfeasibleStrategy {
            element: 2,
            strategy: "DegradeGracefully",
            reason: "`DegradeGracefully` is already listed earlier in this contract".to_string(),
        }
    );
    match &diags[3] {
        HealDiagnostic::InfeasibleStrategy { element, strategy, .. } => {
            assert_eq!(*element, 3);
            assert_eq!(*strategy, "ReturnCached");
        }
        other => panic!("unexpected {other:?}"),
    }
}

#[test]
fn empty_strategy_list_is_reported() {
    let args = HealArguments { on: None, strategies: Some(Vec::new()), has_postcondition: false };
    let (_, diags) = heal_contract_diagnostics(Some(&args), &facts(false, false, 0));
    assert_eq!(diags, vec![HealDiagnostic::EmptyStrategies]);

    let args = HealArguments { on: None, strategies: None, has_postcondition: false };
    let (_, diags) = heal_contract_diagnostics(Some(&args), &facts(false, false, 0));
    assert_eq!(diags, vec![HealDiagnostic::EmptyStrategies]);
}

use codira::heal_attributes::{AlternateMatch, ArgElement, AttrExpr, Attribute, Written};
use codira::heal_contract::{heal_contract_of, FaultClass, HealDiagnostic, ModuleFunction, Strategy};

fn w(text: &str, expr: AttrExpr) -> Written {
    Written { text: text.to_string(), expr }
}

fn path(name: &str) -> AttrExpr {
    AttrExpr::Path { name: Some(name.to_string()) }
}

fn wpath(name: &str) -> Written {
    w(name, path(name))
}

fn call(callee: &str, args: Vec<AttrExpr>) -> AttrExpr {
    AttrExpr::Call { callee: Some(Box::new(path(callee))), args: Some(args) }
}

fn label(name: &str, value: Written) -> Vec<ArgElement> {
    vec![ArgElement::Ident(name.to_string()), ArgElement::Colon, ArgElement::Node(Some(value))]
}

fn attr(name: &str, args: Option<Vec<ArgElement>>) -> Attribute {
    Attribute { name: Some(name.to_string()), args }
}

fn heal(args: Vec<Vec<ArgElement>>) -> Attribute {
    let mut els = Vec::new();
    for (i, a) in args.into_iter().enumerate() {
        if i > 0 {
            els.push(ArgElement::OtherToken);
        }
        els.extend(a);
    }
    attr("heal", Some(els))
}

#[test]
fn no_heal_attribute_no_contract() {
    let attrs = vec![attr("memoizable", None), attr("inline", None)];
    assert!(heal_contract_of(&attrs, false, false, &Vec::new()).is_none());
    assert!(heal_contract_of(&Vec::new(), true, false, &Vec::new()).is_none());
}

#[test]
fn a_bare_heal_has_no_strategies() {
    let attrs = vec![attr("heal", None)];
    let (contract, diags) = heal_contract_of(&attrs, false, false, &Vec::new()).unwrap();
    assert!(contract.strategies.is_empty());
    assert_eq!(diags, vec![HealDiagnostic::EmptyStrategies]);
}

#[test]
fn arguments_are_read_with_companion_capabilities() {
    let attrs = vec![
        attr("memoizable", None),
        heal(vec![
            label("on", w("[Timeout, Timout]", AttrExpr::Array(vec![wpath("Timeout"), wpath("Timout")]))),
            label(
                "strategies",
                w(
                    "[ReturnCached, RetryWithBackoff(3)]",
                    AttrExpr::Array(vec![
                        wpath("ReturnCached"),
                        w("RetryWithBackoff(3)", call("RetryWithBackoff", vec![AttrExpr::Int { digits: "3".to_string() }])),
                    ]),
                ),
            ),
            label("postcondition", w("result > 0", AttrExpr::Other)),
        ]),
    ];
    let (contract, diags) = heal_contract_of(&attrs, false, false, &Vec::new()).unwrap();
    assert!(contract.has_postcondition);
    assert_eq!(contract.fault_classes, vec![FaultClass::Timeout]);
    assert_eq!(contract.strategies, vec![Strategy::ReturnCached]);
    assert_eq!(diags.len(), 2);
    assert!(matches!(
        &diags[0],
        HealDiagnostic::UnknownFaultClass { element: 1, written, suggestion: Some("Timeout") } if written == "Timout"
    ));
    assert!(matches!(&diags[1], HealDiagnostic::InfeasibleStrategy { element: 1, .. }));
}

#[test]
fn alternates_are_resolved_among_the_module_functions() {
    let contract_for = |name: &str| {
        vec![heal(vec![label(
            "strategies",
            w(
                &format!("SubstituteAlternate({name})"),
                call("SubstituteAlternate", vec![path(name)]),
            ),
        )])]
    };
    let fns = vec![
        ModuleFunction { name: "f".to_string(), relation: AlternateMatch::SameFunction },
        ModuleFunction { name: "g".to_string(), relation: AlternateMatch::Compatible },
        ModuleFunction { name: "g".to_string(), relation: AlternateMatch::SignatureMismatch },
    ];
    let (contract, diags) = heal_contract_of(&contract_for("f"), false, false, &fns).unwrap();
    assert!(contract.strategies.is_empty());
    assert!(matches!(
        &diags[0],
        HealDiagnostic::InfeasibleStrategy { element: 0, reason, .. } if reason.contains("guarded function itself")
    ));
    // The first function of that name decides.
    let (contract, diags) = heal_contract_of(&contract_for("g"), false, false, &fns).unwrap();
    assert_eq!(contract.strategies, vec![Strategy::SubstituteAlternate("g".to_string())]);
    assert!(diags.is_empty());
    // A name no function has is not refused here.
    let (contract, _) = heal_contract_of(&contract_for("h"), false, false, &fns).unwrap();
    assert_eq!(contract.strategies, vec![Strategy::SubstituteAlternate("h".to_string())]);
}

#[test]
fn a_missing_strategy_list_is_reported() {
    let attrs = vec![heal(vec![label("on", wpath("Timeout"))])];
    let (contract, diags) = heal_contract_of(&attrs, false, false, &Vec::new()).unwrap();
    assert_eq!(contract.fault_classes, vec![FaultClass::Timeout]);
    assert_eq!(diags, vec![HealDiagnostic::EmptyStrategies]);
}

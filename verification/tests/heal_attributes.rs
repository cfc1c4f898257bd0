use codira::heal_attributes::{
    list_elements, literal_i64, literal_u32, parse_fault_class, parse_strategy, path_name,
    named_arg, read_capabilities, resolve_alternate, string_literal, AlternateMatch, ArgElement,
    AttrExpr, Attribute, Written,
};
use codira::heal_contract::{FaultClass, Strategy};

fn path(name: &str) -> AttrExpr {
    AttrExpr::Path { name: Some(name.to_string()) }
}

fn int_expr(digits: &str) -> AttrExpr {
    AttrExpr::Int { digits: digits.to_string() }
}

fn str_expr(text: &str) -> AttrExpr {
    AttrExpr::Str { text: text.to_string() }
}

fn written(text: &str, expr: AttrExpr) -> Written {
    Written { text: text.to_string(), expr }
}

fn wpath(name: &str) -> Written {
    written(name, path(name))
}

fn call(callee: &str, args: Vec<AttrExpr>) -> AttrExpr {
    AttrExpr::Call { callee: Some(Box::new(path(callee))), args: Some(args) }
}

#[test]
fn integer_literals_parse_like_str_parse() {
    assert_eq!(literal_u32(&int_expr("0")), Some(0));
    assert_eq!(literal_u32(&int_expr("42")), Some(42));
    assert_eq!(literal_u32(&int_expr("+7")), Some(7));
    assert_eq!(literal_u32(&int_expr("4294967295")), Some(u32::MAX));
    assert_eq!(literal_u32(&int_expr("4294967296")), None);
    assert_eq!(literal_u32(&int_expr("99999999999999999999")), None);
    assert_eq!(literal_u32(&int_expr("1_000")), None);
    assert_eq!(literal_u32(&int_expr("")), None);
    assert_eq!(literal_u32(&int_expr("+")), None);
    assert_eq!(literal_u32(&str_expr("\"5\"")), None);
    for text in ["0", "12", "+12", "4294967295", "4294967296", "1a", "", "+"] {
        assert_eq!(literal_u32(&int_expr(text)), text.parse::<u32>().ok(), "{text}");
    }
}

#[test]
fn negated_literals_read_as_negative() {
    let neg = AttrExpr::Neg { expr: Some(Box::new(int_expr("5"))) };
    assert_eq!(literal_i64(&neg), Some(-5));
    let double = AttrExpr::Neg { expr: Some(Box::new(neg)) };
    assert_eq!(literal_i64(&double), Some(5));
    assert_eq!(literal_i64(&AttrExpr::Neg { expr: None }), None);
    assert_eq!(literal_i64(&int_expr("4294967295")), Some(4294967295));
}

#[test]
fn string_literals_lose_their_quotes() {
    assert_eq!(string_literal(&str_expr("\"fallback\"")), Some("fallback".to_string()));
    assert_eq!(string_literal(&str_expr("\"\"\"x\"\"")), Some("x".to_string()));
    assert_eq!(string_literal(&str_expr("\"\"")), Some(String::new()));
    assert_eq!(string_literal(&path("fallback")), None);
    assert_eq!(path_name(&path("fallback")), Some("fallback".to_string()));
    assert_eq!(path_name(&AttrExpr::Path { name: None }), None);
}

#[test]
fn fault_classes_are_read_by_name_or_custom() {
    assert_eq!(parse_fault_class(&path("Timeout")), Some(FaultClass::Timeout));
    assert_eq!(parse_fault_class(&path("Timeot")), None);
    assert_eq!(
        parse_fault_class(&call("Custom", vec![str_expr("\"disk_full\"")])),
        Some(FaultClass::Custom("disk_full".to_string()))
    );
    assert_eq!(parse_fault_class(&call("Custom", vec![path("disk_full")])), None);
    assert_eq!(parse_fault_class(&call("Other", vec![str_expr("\"x\"")])), None);
    assert_eq!(parse_fault_class(&call("Custom", vec![])), None);
}

#[test]
fn strategies_are_read_bare_or_with_their_argument() {
    assert_eq!(parse_strategy(&path("ReturnCached")), Some(Strategy::ReturnCached));
    assert_eq!(parse_strategy(&path("ReturnDefault")), Some(Strategy::ReturnDefault(None)));
    assert_eq!(parse_strategy(&path("RetryWithBackoff")), None);
    assert_eq!(
        parse_strategy(&call("RetryWithBackoff", vec![int_expr("3")])),
        Some(Strategy::RetryWithBackoff(3))
    );
    assert_eq!(
        parse_strategy(&call(
            "ReturnDefault",
            vec![AttrExpr::Neg { expr: Some(Box::new(int_expr("1"))) }]
        )),
        Some(Strategy::ReturnDefault(Some(-1)))
    );
    assert_eq!(
        parse_strategy(&call("SubstituteAlternate", vec![path("fetch_fallback")])),
        Some(Strategy::SubstituteAlternate("fetch_fallback".to_string()))
    );
    assert_eq!(
        parse_strategy(&call("SubstituteAlternate", vec![str_expr("\"fetch_fallback\"")])),
        Some(Strategy::SubstituteAlternate("fetch_fallback".to_string()))
    );
    assert_eq!(parse_strategy(&call("ReturnCached", vec![int_expr("1")])), None);
    assert_eq!(parse_strategy(&call("RetryWithBackoff", vec![])), None);
    assert_eq!(parse_strategy(&AttrExpr::Other), None);
}

#[test]
fn capabilities_come_from_companion_attributes() {
    assert_eq!(read_capabilities(None).idempotent_up_to, 0);
    let attrs = vec![
        Attribute { name: Some("memoizable".to_string()), args: None },
        Attribute {
            name: Some("idempotent".to_string()),
            args: Some(vec![ArgElement::OtherToken, node(int_expr("3"))]),
        },
        Attribute { name: Some("inline".to_string()), args: None },
    ];
    let caps = read_capabilities(Some(&attrs));
    assert!(caps.memoizable);
    assert!(!caps.snapshot);
    assert_eq!(caps.idempotent_up_to, 3);
    let bare = vec![Attribute { name: Some("idempotent".to_string()), args: None }];
    assert_eq!(read_capabilities(Some(&bare)).idempotent_up_to, 0);
}

#[test]
fn alternates_must_be_another_function_of_the_same_signature() {
    assert_eq!(
        resolve_alternate("f", AlternateMatch::SameFunction).as_deref(),
        Some("`f` is the guarded function itself, so substituting it would re-run the call that just faulted")
    );
    assert_eq!(
        resolve_alternate("g", AlternateMatch::SignatureMismatch).as_deref(),
        Some("`g` does not have the same signature as this function, so it cannot stand in for it")
    );
    assert_eq!(resolve_alternate("g", AlternateMatch::Compatible), None);
    assert_eq!(resolve_alternate("g", AlternateMatch::NotFound), None);
}

#[test]
fn list_arguments_are_split_into_elements() {
    let list = written("[Timeout, OutOfBounds]", AttrExpr::Array(vec![wpath("Timeout"), wpath("OutOfBounds")]));
    let items = list_elements(&list);
    assert_eq!(items.len(), 2);
    assert_eq!(items[1].text, "OutOfBounds");
    let single = wpath("Timeout");
    assert_eq!(list_elements(&single).len(), 1);
    assert_eq!(list_elements(&single)[0].text, "Timeout");
}

fn ident(text: &str) -> ArgElement {
    ArgElement::Ident(text.to_string())
}

fn node(e: AttrExpr) -> ArgElement {
    ArgElement::Node(Some(written("", e)))
}

#[test]
fn named_arg_finds_the_labelled_value() {
    // on: Timeout, strategies: [Retry]
    let els = vec![
        ident("on"),
        ArgElement::Colon,
        node(path("Timeout")),
        ArgElement::OtherToken,
        ident("strategies"),
        ArgElement::Colon,
        node(AttrExpr::Array(vec![wpath("Retry")])),
    ];
    assert!(matches!(named_arg(&els, "on"), Some(Written { expr: AttrExpr::Path { name: Some(n) }, .. }) if n == "Timeout"));
    assert!(matches!(named_arg(&els, "strategies"), Some(Written { expr: AttrExpr::Array(items), .. }) if items.len() == 1));
    assert!(named_arg(&els, "postcondition").is_none());
}

#[test]
fn named_arg_skips_a_label_without_a_colon() {
    // on Timeout, on: Crash  -- a label followed by another token is passed
    let els = vec![
        ident("on"),
        ArgElement::OtherToken,
        ident("on"),
        ArgElement::Colon,
        node(path("Crash")),
    ];
    assert!(matches!(named_arg(&els, "on"), Some(Written { expr: AttrExpr::Path { name: Some(n) }, .. }) if n == "Crash"));
}

#[test]
fn named_arg_stops_at_a_label_followed_by_a_node() {
    let els = vec![
        ident("on"),
        node(path("Timeout")),
        ident("on"),
        ArgElement::Colon,
        node(path("Crash")),
    ];
    assert!(named_arg(&els, "on").is_none());
    assert!(named_arg(&vec![ident("on")], "on").is_none());
}

#[test]
fn named_arg_passes_a_value_that_is_not_an_expression() {
    let els = vec![
        ident("on"),
        ArgElement::Colon,
        ArgElement::Node(None),
        ident("on"),
        ArgElement::Colon,
        node(path("Crash")),
    ];
    assert!(matches!(named_arg(&els, "on"), Some(Written { expr: AttrExpr::Path { name: Some(n) }, .. }) if n == "Crash"));
}

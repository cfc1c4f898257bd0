use codira::refinement_check::{
    lower_predicate, refinement_verdict, BinOp, PredExpr, PrefixOp, RefinementCheckResult,
    SatResult, Sorted, Term,
};

fn lit(text: &str) -> PredExpr {
    PredExpr::Int { text: text.to_string() }
}

fn name(n: &str) -> PredExpr {
    PredExpr::Path { name: Some(n.to_string()) }
}

fn bin(op: BinOp, l: PredExpr, r: PredExpr) -> PredExpr {
    PredExpr::Bin { op: Some(op), lhs: Some(Box::new(l)), rhs: Some(Box::new(r)) }
}

fn b(t: Term) -> Box<Term> {
    Box::new(t)
}

#[test]
fn a_bound_on_the_binder_lowers_to_a_boolean_term() {
    // x > 0 && x < 0
    let e = bin(
        BinOp::BooleanAnd,
        bin(BinOp::Greater, name("x"), lit("0")),
        bin(BinOp::Less, name("x"), lit("0")),
    );
    assert_eq!(
        lower_predicate("x", &e),
        Some(Sorted::Bool(Term::And(
            b(Term::Gt(b(Term::Binder), b(Term::IntLit(0)))),
            b(Term::Lt(b(Term::Binder), b(Term::IntLit(0)))),
        )))
    );
}

#[test]
fn arithmetic_negation_and_parentheses() {
    // -(x + 1) <= x
    let e = bin(
        BinOp::LessEqual,
        PredExpr::Prefix {
            op: Some(PrefixOp::Neg),
            expr: Some(Box::new(PredExpr::Paren(Some(Box::new(bin(BinOp::Add, name("x"), lit("1"))))))),
        },
        name("x"),
    );
    assert_eq!(
        lower_predicate("x", &e),
        Some(Sorted::Bool(Term::Le(
            b(Term::Sub(b(Term::IntLit(0)), b(Term::Add(b(Term::Binder), b(Term::IntLit(1)))))),
            b(Term::Binder),
        )))
    );
}

#[test]
fn constructs_outside_the_subset_are_not_lowered() {
    assert_eq!(lower_predicate("x", &name("y")), None);
    assert_eq!(lower_predicate("x", &bin(BinOp::Other, name("x"), lit("2"))), None);
    assert_eq!(lower_predicate("x", &bin(BinOp::BooleanAnd, name("x"), lit("2"))), None);
    assert_eq!(
        lower_predicate("x", &PredExpr::Prefix { op: Some(PrefixOp::Not), expr: Some(Box::new(name("x"))) }),
        None
    );
    assert_eq!(lower_predicate("x", &lit("1_000")), None);
    assert_eq!(lower_predicate("x", &lit("99999999999999999999")), None);
    assert_eq!(lower_predicate("x", &PredExpr::Other), None);
}

#[test]
fn predicate_literals_parse_as_i64() {
    for text in ["0", "42", "+7", "-7", "9223372036854775807", "9223372036854775808",
        "-9223372036854775808", "-9223372036854775809", "", "-", "1a"] {
        let expected = text.parse::<i64>().ok().map(|v| Sorted::Int(Term::IntLit(v)));
        assert_eq!(lower_predicate("x", &lit(text)), expected, "{text}");
    }
}

#[test]
fn verdicts_follow_the_solver_on_boolean_terms_only() {
    let boolean = Some(Sorted::Bool(Term::BoolLit(false)));
    assert_eq!(refinement_verdict(&boolean, SatResult::Unsat), RefinementCheckResult::Unsatisfiable);
    assert_eq!(refinement_verdict(&boolean, SatResult::Sat), RefinementCheckResult::Satisfiable);
    assert_eq!(refinement_verdict(&boolean, SatResult::Unknown), RefinementCheckResult::Satisfiable);
    let integer = Some(Sorted::Int(Term::Binder));
    assert_eq!(refinement_verdict(&integer, SatResult::Unsat), RefinementCheckResult::NotChecked);
    assert_eq!(refinement_verdict(&None, SatResult::Unsat), RefinementCheckResult::NotChecked);
}

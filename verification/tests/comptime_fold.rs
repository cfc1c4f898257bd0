use codira::comptime_fold::{binary_op_kind, build_body, value_to_expr, Value};
use codira::hir::{
    ArithOp, BinaryOp, CmpOp, Direction, Expr, Literal, LiteralFloat, LiteralFloatKind,
    LiteralInt, LiteralIntKind, LogicOp, Statement, UnaryOp,
};
use codira::mir::{Attr, Body, MirType, OpKind};

fn int_lit(value: u128) -> Expr {
    Expr::Literal(Literal::Int(LiteralInt { kind: LiteralIntKind::Unsuffixed, value }))
}

fn float_lit(value: f64) -> Expr {
    Expr::Literal(Literal::Float(LiteralFloat {
        kind: LiteralFloatKind::Unsuffixed,
        bits: value.to_bits(),
    }))
}

fn push_expr(exprs: &mut Vec<Expr>, e: Expr) -> usize {
    exprs.push(e);
    exprs.len() - 1
}

fn kinds(body: &Body) -> Vec<OpKind> {
    body.ops.iter().map(|op| op.kind.clone()).collect()
}

#[test]
fn folds_two_plus_two() {
    let mut exprs = Vec::new();
    let two_a = push_expr(&mut exprs, int_lit(2));
    let two_b = push_expr(&mut exprs, int_lit(2));
    let sum = push_expr(
        &mut exprs,
        Expr::BinaryOp { lhs: two_a, rhs: two_b, op: Some(BinaryOp::ArithOp(ArithOp::Add)) },
    );
    let block = push_expr(&mut exprs, Expr::Block { statements: vec![], tail: Some(sum) });

    let body = build_body(&exprs, block).unwrap();
    assert_eq!(
        kinds(&body),
        vec![OpKind::Const(Attr::Int(2)), OpKind::Const(Attr::Int(2)), OpKind::Add]
    );
    assert_eq!(body.ops[2].operands, vec![0, 1]);
    assert!(body.ops.iter().all(|op| op.ty == MirType::Untyped));

    let folded = value_to_expr(&mut exprs, Value::Int(4)).unwrap();
    assert_eq!(folded, int_lit(4));
}

#[test]
fn negative_result_wraps_in_unary_neg() {
    let mut exprs = Vec::new();
    let zero = push_expr(&mut exprs, int_lit(0));
    let five = push_expr(&mut exprs, int_lit(5));
    let diff = push_expr(
        &mut exprs,
        Expr::BinaryOp { lhs: zero, rhs: five, op: Some(BinaryOp::ArithOp(ArithOp::Subtract)) },
    );
    let body = build_body(&exprs, diff).unwrap();
    assert_eq!(body.ops.last().unwrap().kind, OpKind::Sub);

    let before = exprs.len();
    let folded = value_to_expr(&mut exprs, Value::Int(-5)).unwrap();
    match folded {
        Expr::UnaryOp { expr, op: UnaryOp::Neg } => {
            assert_eq!(expr, before);
            assert_eq!(exprs[expr], int_lit(5));
        }
        other => panic!("expected UnaryOp::Neg, got {other:?}"),
    }
}

#[test]
fn folds_bitwise_and_shift_ops() {
    let mut exprs = Vec::new();
    let one = push_expr(&mut exprs, int_lit(1));
    let four = push_expr(&mut exprs, int_lit(4));
    let shifted = push_expr(
        &mut exprs,
        Expr::BinaryOp { lhs: one, rhs: four, op: Some(BinaryOp::ArithOp(ArithOp::LeftShift)) },
    );
    let three = push_expr(&mut exprs, int_lit(3));
    let ored = push_expr(
        &mut exprs,
        Expr::BinaryOp { lhs: shifted, rhs: three, op: Some(BinaryOp::ArithOp(ArithOp::BitOr)) },
    );
    let body = build_body(&exprs, ored).unwrap();
    assert_eq!(
        kinds(&body),
        vec![
            OpKind::Const(Attr::Int(1)),
            OpKind::Const(Attr::Int(4)),
            OpKind::Shl,
            OpKind::Const(Attr::Int(3)),
            OpKind::BitOr,
        ]
    );
    assert_eq!(body.ops[4].operands, vec![2, 3]);
}

#[test]
fn folds_float_arithmetic_back_to_a_float_literal() {
    let mut exprs = Vec::new();
    let a = push_expr(&mut exprs, float_lit(1.5));
    let b = push_expr(&mut exprs, float_lit(2.25));
    let sum = push_expr(
        &mut exprs,
        Expr::BinaryOp { lhs: a, rhs: b, op: Some(BinaryOp::ArithOp(ArithOp::Add)) },
    );
    let body = build_body(&exprs, sum).unwrap();
    assert_eq!(body.ops[0].kind, OpKind::Const(Attr::Float(1.5f64.to_bits())));

    let folded = value_to_expr(&mut exprs, Value::Float(3.75f64.to_bits())).unwrap();
    assert_eq!(folded, float_lit(3.75));
}

#[test]
fn negative_float_result_wraps_in_unary_neg() {
    let mut exprs = Vec::new();
    match value_to_expr(&mut exprs, Value::Float((-0.5f64).to_bits())).unwrap() {
        Expr::UnaryOp { expr, op: UnaryOp::Neg } => assert_eq!(exprs[expr], float_lit(0.5)),
        other => panic!("expected UnaryOp::Neg, got {other:?}"),
    }
    // `-0.0` has an observable sign, so it too becomes a negation.
    match value_to_expr(&mut exprs, Value::Float((-0.0f64).to_bits())).unwrap() {
        Expr::UnaryOp { expr, op: UnaryOp::Neg } => assert_eq!(exprs[expr], float_lit(0.0)),
        other => panic!("expected UnaryOp::Neg, got {other:?}"),
    }
}

#[test]
fn non_finite_float_results_do_not_fold() {
    let mut exprs = Vec::new();
    assert!(value_to_expr(&mut exprs, Value::Float(f64::INFINITY.to_bits())).is_none());
    assert!(value_to_expr(&mut exprs, Value::Float(f64::NEG_INFINITY.to_bits())).is_none());
    assert!(value_to_expr(&mut exprs, Value::Float(f64::NAN.to_bits())).is_none());
    assert!(exprs.is_empty());
    assert!(value_to_expr(&mut exprs, Value::Float(f64::MAX.to_bits())).is_some());
}

#[test]
fn bails_out_on_unsupported_construct() {
    let mut exprs = Vec::new();
    let unsupported = push_expr(&mut exprs, Expr::Other);
    assert!(build_body(&exprs, unsupported).is_none());

    // An unsupported node deep in the tree declines the whole block.
    let one = push_expr(&mut exprs, int_lit(1));
    let sum = push_expr(
        &mut exprs,
        Expr::BinaryOp { lhs: one, rhs: unsupported, op: Some(BinaryOp::ArithOp(ArithOp::Add)) },
    );
    assert!(build_body(&exprs, sum).is_none());
    // So do statements, assignments and literals that do not fit an i64.
    let block = push_expr(&mut exprs, Expr::Block { statements: vec![Statement::Expr(one)], tail: Some(one) });
    assert!(build_body(&exprs, block).is_none());
    let assign = push_expr(
        &mut exprs,
        Expr::BinaryOp { lhs: one, rhs: one, op: Some(BinaryOp::Assignment { op: None }) },
    );
    assert!(build_body(&exprs, assign).is_none());
    let huge = push_expr(&mut exprs, int_lit(1u128 << 63));
    assert!(build_body(&exprs, huge).is_none());
}

#[test]
fn if_branches_lower_into_regions() {
    let mut exprs = Vec::new();
    let cond = push_expr(&mut exprs, Expr::Literal(Literal::Bool(true)));
    let then_v = push_expr(&mut exprs, int_lit(1));
    let else_v = push_expr(&mut exprs, int_lit(2));
    let neg = push_expr(&mut exprs, Expr::UnaryOp { expr: else_v, op: UnaryOp::Neg });
    let iff = push_expr(
        &mut exprs,
        Expr::If { condition: cond, then_branch: then_v, else_branch: Some(neg) },
    );
    let body = build_body(&exprs, iff).unwrap();
    assert_eq!(kinds(&body), vec![OpKind::Const(Attr::Bool(true)), OpKind::If]);
    let op = &body.ops[1];
    assert_eq!(op.operands, vec![0]);
    assert_eq!(op.regions.len(), 2);
    assert_eq!(kinds(&op.regions[0]), vec![OpKind::Const(Attr::Int(1))]);
    assert_eq!(kinds(&op.regions[1]), vec![OpKind::Const(Attr::Int(2)), OpKind::Neg]);
}

#[test]
fn comparison_operators_map_to_their_ops() {
    let lt = BinaryOp::CmpOp(CmpOp::Ord { direction: Direction::Less, strict: true });
    let ge = BinaryOp::CmpOp(CmpOp::Ord { direction: Direction::Greater, strict: false });
    assert_eq!(binary_op_kind(lt), Some(OpKind::Lt));
    assert_eq!(binary_op_kind(ge), Some(OpKind::Ge));
    assert_eq!(binary_op_kind(BinaryOp::CmpOp(CmpOp::Eq { negated: true })), Some(OpKind::Ne));
    assert_eq!(binary_op_kind(BinaryOp::LogicOp(LogicOp::Or)), Some(OpKind::Or));
    assert_eq!(binary_op_kind(BinaryOp::Assignment { op: Some(ArithOp::Add) }), None);
}

#[test]
fn i64_min_folds_to_a_literal_that_does_not_refold() {
    let mut exprs = Vec::new();
    let neg = value_to_expr(&mut exprs, Value::Int(i64::MIN)).unwrap();
    assert_eq!(exprs[0], int_lit(1u128 << 63));
    let at = push_expr(&mut exprs, neg);
    assert!(build_body(&exprs, at).is_none());
}

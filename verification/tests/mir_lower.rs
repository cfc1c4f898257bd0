use codira::cast::{CastKind, CastMode, CastType, FloatBitness, IntBitness};
use codira::hir::{
    ArithOp, BinaryOp, CmpOp, Direction, Expr, Literal, LiteralInt, LiteralIntKind, Pat,
    Statement, UnaryOp,
};
use codira::mir::{Attr, Body, Generator, MirType, Op, OpKind};
use codira::mir_lower::{lower_function_to_generator, HirTy};

const I32: HirTy = HirTy::Scalar(CastType::Int { signed: true, bitness: IntBitness::X32 });
const I64: HirTy = HirTy::Scalar(CastType::Int { signed: true, bitness: IntBitness::X64 });
const U8: HirTy = HirTy::Scalar(CastType::Int { signed: false, bitness: IntBitness::X8 });
const U32: HirTy = HirTy::Scalar(CastType::Int { signed: false, bitness: IntBitness::X32 });
const U64: HirTy = HirTy::Scalar(CastType::Int { signed: false, bitness: IntBitness::X64 });
const F32: HirTy = HirTy::Scalar(CastType::Float { bitness: FloatBitness::X32 });
const F64: HirTy = HirTy::Scalar(CastType::Float { bitness: FloatBitness::X64 });
const BOOL: HirTy = HirTy::Scalar(CastType::Bool);
/// A generic parameter, a struct, a function: no machine type.
const OPAQUE: HirTy = HirTy::Scalar(CastType::Other);

const T_I32: MirType = MirType::Int { width: 32, signed: true };
const T_I64: MirType = MirType::Int { width: 64, signed: true };
const T_U8: MirType = MirType::Int { width: 8, signed: false };
const T_U32: MirType = MirType::Int { width: 32, signed: false };
const T_U64: MirType = MirType::Int { width: 64, signed: false };
const T_F32: MirType = MirType::Float { width: 32 };
const T_F64: MirType = MirType::Float { width: 64 };

/// A function body built by hand, as inference would leave it: each
/// expression with its type, and the parameters' patterns.
struct Func {
    exprs: Vec<Expr>,
    pats: Vec<Pat>,
    params: Vec<usize>,
    types: Vec<HirTy>,
}

impl Func {
    fn new() -> Func {
        Func { exprs: Vec::new(), pats: Vec::new(), params: Vec::new(), types: Vec::new() }
    }

    fn expr(&mut self, e: Expr, ty: HirTy) -> usize {
        self.exprs.push(e);
        self.types.push(ty);
        self.exprs.len() - 1
    }

    fn param(&mut self, name: &str) {
        self.pats.push(Pat::Bind { name: name.to_string() });
        self.params.push(self.pats.len() - 1);
    }

    fn pat(&mut self, name: &str) -> usize {
        self.pats.push(Pat::Bind { name: name.to_string() });
        self.pats.len() - 1
    }

    fn path(&mut self, name: &str, ty: HirTy) -> usize {
        self.expr(Expr::Path { ident: Some(name.to_string()) }, ty)
    }

    fn int_lit(&mut self, value: u128, ty: HirTy) -> usize {
        self.expr(
            Expr::Literal(Literal::Int(LiteralInt { kind: LiteralIntKind::Unsuffixed, value })),
            ty,
        )
    }

    fn arith(&mut self, lhs: usize, op: ArithOp, rhs: usize, ty: HirTy) -> usize {
        self.expr(Expr::BinaryOp { lhs, rhs, op: Some(BinaryOp::ArithOp(op)) }, ty)
    }

    fn cast(&mut self, expr: usize, ty: HirTy) -> usize {
        self.expr(Expr::Cast { expr }, ty)
    }

    fn block(&mut self, statements: Vec<Statement>, tail: usize, ty: HirTy) -> usize {
        self.expr(Expr::Block { statements, tail: Some(tail) }, ty)
    }

    /// Lowers the function whose body is `root`, the last expression.
    fn lower(self, name: &str, generics: &[&str]) -> Option<Generator> {
        let generics: Vec<String> = generics.iter().map(|g| g.to_string()).collect();
        let body_expr = self.exprs.len() - 1;
        let hir = codira::mir_lower::HirBody {
            exprs: self.exprs,
            pats: self.pats,
            params: self.params,
            body_expr,
        };
        lower_function_to_generator(name, &generics, &hir, &self.types, 64)
    }
}

fn result(body: &Body) -> &Op {
    body.ops.last().expect("body has a result")
}

fn get(body: &Body, i: usize) -> &Op {
    &body.ops[i]
}

/// Every operand names an earlier operation of its own body, regions
/// included.
fn operands_precede(body: &Body) -> bool {
    body.ops.iter().enumerate().all(|(i, op)| {
        op.operands.iter().all(|&o| o < i) && op.regions.iter().all(operands_precede)
    })
}

/// Typed arithmetic and bitwise operations agree with their typed operands,
/// and typed comparisons compare operands of one type.
fn types_agree(body: &Body) -> bool {
    body.ops.iter().all(|op| {
        let operand_tys: Vec<MirType> = op.operands.iter().map(|&o| body.ops[o].ty).collect();
        let typed: Vec<MirType> =
            operand_tys.iter().copied().filter(|t| *t != MirType::Untyped).collect();
        let ok = match op.kind {
            OpKind::Add | OpKind::Sub | OpKind::Mul | OpKind::Div | OpKind::Rem
            | OpKind::BitAnd | OpKind::BitOr | OpKind::BitXor | OpKind::Neg => {
                op.ty == MirType::Untyped || typed.iter().all(|t| *t == op.ty)
            }
            OpKind::Lt | OpKind::Le | OpKind::Gt | OpKind::Ge | OpKind::Eq | OpKind::Ne => {
                typed.windows(2).all(|w| w[0] == w[1])
            }
            _ => true,
        };
        ok && op.regions.iter().all(types_agree)
    })
}

fn lower_checked(f: Func, name: &str, generics: &[&str]) -> Generator {
    let g = f.lower(name, generics).expect("expected a lowerable generator");
    assert!(operands_precede(&g.body), "lowered body must verify");
    assert!(types_agree(&g.body), "lowered body must type-check");
    g
}

fn untyped_count(body: &Body) -> usize {
    body.ops
        .iter()
        .map(|op| {
            usize::from(op.ty == MirType::Untyped)
                + op.regions.iter().map(untyped_count).sum::<usize>()
        })
        .sum()
}

fn has_cast(body: &Body) -> bool {
    body.ops
        .iter()
        .any(|op| matches!(op.kind, OpKind::Cast(..)) || op.regions.iter().any(has_cast))
}

/// `func add[N](x: i64) -> i64 { x + N }`
fn add_generic() -> Func {
    let mut f = Func::new();
    f.param("x");
    let x = f.path("x", I64);
    let n = f.path("N", OPAQUE);
    let sum = f.arith(x, ArithOp::Add, n, I64);
    f.block(vec![], sum, I64);
    f
}

/// `func clamp_low[Lo](x: i64) -> i64 { let y = x; if y < Lo { Lo } else { y } }`
fn clamp_low() -> Func {
    let mut f = Func::new();
    f.param("x");
    let x = f.path("x", I64);
    let y_pat = f.pat("y");
    let y = f.path("y", I64);
    let lo = f.path("Lo", OPAQUE);
    let lt = f.expr(
        Expr::BinaryOp {
            lhs: y,
            rhs: lo,
            op: Some(BinaryOp::CmpOp(CmpOp::Ord { direction: Direction::Less, strict: true })),
        },
        BOOL,
    );
    let lo2 = f.path("Lo", OPAQUE);
    let then_block = f.block(vec![], lo2, OPAQUE);
    let y2 = f.path("y", I64);
    let else_block = f.block(vec![], y2, I64);
    let if_expr = f.expr(
        Expr::If { condition: lt, then_branch: then_block, else_branch: Some(else_block) },
        I64,
    );
    f.block(vec![Statement::Let { pat: y_pat, initializer: Some(x) }], if_expr, I64);
    f
}

/// `func mask(x: i64) -> i64 { (x & 255) << 1 }`
fn mask() -> Func {
    let mut f = Func::new();
    f.param("x");
    let x = f.path("x", I64);
    let lit = f.int_lit(255, I64);
    let and = f.arith(x, ArithOp::BitAnd, lit, I64);
    let one = f.int_lit(1, I64);
    let shl = f.arith(and, ArithOp::LeftShift, one, I64);
    f.block(vec![], shl, I64);
    f
}

/// `func neg(x: f64) -> f64 { -x }`
fn neg() -> Func {
    let mut f = Func::new();
    f.param("x");
    let x = f.path("x", F64);
    let n = f.expr(Expr::UnaryOp { expr: x, op: UnaryOp::Neg }, F64);
    f.block(vec![], n, F64);
    f
}

/// `func lit() -> i64 { 1 + 2 }`
fn lit() -> Func {
    let mut f = Func::new();
    let one = f.int_lit(1, I64);
    let two = f.int_lit(2, I64);
    let sum = f.arith(one, ArithOp::Add, two, I64);
    f.block(vec![], sum, I64);
    f
}

/// `func name(x: source) -> target { x as target }`
fn single_cast(source: HirTy, target: HirTy) -> Func {
    let mut f = Func::new();
    f.param("x");
    let x = f.path("x", source);
    let c = f.cast(x, target);
    f.block(vec![], c, target);
    f
}

/// The body's result must be a cast: its kind, mode, operand type and
/// result type.
fn cast_op(source: HirTy, target: HirTy) -> (CastKind, CastMode, MirType, MirType) {
    let g = lower_checked(single_cast(source, target), "cast", &[]);
    let op = result(&g.body);
    let OpKind::Cast(kind, mode) = op.kind.clone() else {
        panic!("expected the body to end in a cast, got {:?}", op.kind);
    };
    assert_eq!(op.operands.len(), 1, "a cast takes exactly one operand");
    (kind, mode, get(&g.body, op.operands[0]).ty, op.ty)
}

#[test]
fn lowers_generic_param_reference() {
    let generator = add_generic().lower("add", &["N"]).expect("expected a lowerable generator");

    assert_eq!(generator.name, "add");
    assert_eq!(generator.params.len(), 1);
    assert_eq!(generator.params[0].name, "N");

    let op = result(&generator.body);
    assert_eq!(op.kind, OpKind::Add);
    assert_eq!(op.operands.len(), 2);
    assert_eq!(get(&generator.body, op.operands[0]).kind, OpKind::Arg(0));
    assert_eq!(get(&generator.body, op.operands[1]).kind, OpKind::ParamRef("N".to_string()));
}

#[test]
fn lowers_let_bindings_and_if() {
    let generator =
        clamp_low().lower("clamp_low", &["Lo"]).expect("expected a lowerable generator");

    let op = result(&generator.body);
    assert_eq!(op.kind, OpKind::If);
    assert_eq!(op.regions.len(), 2);
    assert_eq!(result(&op.regions[0]).kind, OpKind::ParamRef("Lo".to_string()));
    assert_eq!(result(&op.regions[1]).kind, OpKind::Arg(0));
}

#[test]
fn lowers_bitwise_and_shift_ops() {
    let generator = mask().lower("mask", &[]).expect("expected a lowerable generator");
    assert!(operands_precede(&generator.body));

    let shl = result(&generator.body);
    assert_eq!(shl.kind, OpKind::Shl);
    let and = get(&generator.body, shl.operands[0]);
    assert_eq!(and.kind, OpKind::BitAnd);
    assert_eq!(get(&generator.body, and.operands[0]).kind, OpKind::Arg(0));
    assert_eq!(get(&generator.body, and.operands[1]).kind, OpKind::Const(Attr::Int(255)));
}

#[test]
fn lowers_function_calls_to_core_call() {
    // func uses_helper() -> i64 { helper(41) }
    let mut f = Func::new();
    let callee = f.path("helper", OPAQUE);
    let arg = f.int_lit(41, I64);
    let call = f.expr(Expr::Call { callee, args: vec![arg] }, I64);
    f.block(vec![], call, I64);
    let generator = f.lower("uses_helper", &[]).expect("expected a lowerable generator");
    assert!(operands_precede(&generator.body));

    let call = result(&generator.body);
    assert_eq!(call.kind, OpKind::Call("helper".to_string()));
    assert_eq!(call.operands.len(), 1);
    assert_eq!(get(&generator.body, call.operands[0]).kind, OpKind::Const(Attr::Int(41)));

    // func helper(x: i64) -> i64 { x + 1 }
    let mut h = Func::new();
    h.param("x");
    let x = h.path("x", I64);
    let one = h.int_lit(1, I64);
    let sum = h.arith(x, ArithOp::Add, one, I64);
    h.block(vec![], sum, I64);
    let helper = h.lower("helper", &[]).expect("helper should lower");
    assert_eq!(helper.name, "helper");
}

#[test]
fn bails_out_on_method_calls() {
    // func uses_method(s: S) -> i64 { s.m() }
    let mut f = Func::new();
    f.param("s");
    let _s = f.path("s", OPAQUE);
    let method_call = f.expr(Expr::Other, I64);
    f.block(vec![], method_call, I64);
    let generator = f.lower("uses_method", &[]);
    assert!(generator.is_none());
}

#[test]
fn bails_out_on_calling_a_parameter() {
    // func apply(x: i64) -> i64 { x(1) }
    let mut f = Func::new();
    f.param("x");
    let callee = f.path("x", I64);
    let arg = f.int_lit(1, I64);
    let call = f.expr(Expr::Call { callee, args: vec![arg] }, I64);
    f.block(vec![], call, I64);
    let generator = f.lower("apply", &[]);
    assert!(generator.is_none());
}

#[test]
fn int_narrowing_cast_emits_trunc() {
    assert_eq!(cast_op(I64, I32), (CastKind::Trunc, CastMode::Wrapping, T_I64, T_I32));
    assert_eq!(cast_op(U64, U8), (CastKind::Trunc, CastMode::Wrapping, T_U64, T_U8));
}

#[test]
fn signed_widening_cast_emits_sext() {
    assert_eq!(cast_op(I32, I64), (CastKind::Sext, CastMode::Wrapping, T_I32, T_I64));
}

#[test]
fn unsigned_widening_cast_emits_zext_not_sext() {
    let (kind, mode, source, target) = cast_op(U32, I64);
    assert_eq!(kind, CastKind::Zext, "u32 -> i64 must zero-extend");
    assert_ne!(kind, CastKind::Sext);
    assert_eq!((mode, source, target), (CastMode::Wrapping, T_U32, T_I64));

    let (kind, ..) = cast_op(I32, U64);
    assert_eq!(kind, CastKind::Sext, "i32 -> u64 must sign-extend");
}

#[test]
fn signed_int_to_float_emits_sitofp() {
    assert_eq!(cast_op(I32, F64), (CastKind::SiToFp, CastMode::Wrapping, T_I32, T_F64));
}

#[test]
fn unsigned_int_to_float_emits_uitofp() {
    let (kind, mode, source, target) = cast_op(U32, F64);
    assert_eq!(kind, CastKind::UiToFp, "u32 -> f64 must use the unsigned conversion");
    assert_ne!(kind, CastKind::SiToFp);
    assert_eq!((mode, source, target), (CastMode::Wrapping, T_U32, T_F64));
}

#[test]
fn float_to_int_picks_signedness_from_the_target() {
    assert_eq!(cast_op(F64, I32), (CastKind::FpToSi, CastMode::Wrapping, T_F64, T_I32));
    assert_eq!(cast_op(F64, U32), (CastKind::FpToUi, CastMode::Wrapping, T_F64, T_U32));
}

#[test]
fn float_narrowing_emits_fptrunc() {
    assert_eq!(cast_op(F64, F32), (CastKind::FpTrunc, CastMode::Wrapping, T_F64, T_F32));
}

#[test]
fn float_widening_emits_fpext() {
    assert_eq!(cast_op(F32, F64), (CastKind::FpExt, CastMode::Wrapping, T_F32, T_F64));
}

#[test]
fn identity_cast_emits_no_cast_op() {
    let generator = lower_checked(single_cast(I64, I64), "ident", &[]);
    assert!(!has_cast(&generator.body), "an identity cast must emit no op at all");

    let op = result(&generator.body);
    assert_eq!(op.kind, OpKind::Arg(0), "the cast must lower to its operand");
    assert_eq!(op.ty, T_I64);
    assert_eq!(generator.body.ops.len(), 1, "exactly one op: the operand");
}

#[test]
fn same_width_signedness_change_emits_nothing() {
    let generator = lower_checked(single_cast(I32, U32), "reinterpret", &[]);
    assert_eq!(
        generator.body.ops.len(),
        1,
        "exactly one op: the operand, with no conversion emitted"
    );
}

#[test]
fn chained_casts_nest_left_to_right() {
    // func chain(x: i64) -> i64 { x as i32 as i64 }
    let mut f = Func::new();
    f.param("x");
    let x = f.path("x", I64);
    let narrow = f.cast(x, I32);
    let widen = f.cast(narrow, I64);
    f.block(vec![], widen, I64);
    let generator = lower_checked(f, "chain", &[]);

    let outer = result(&generator.body);
    assert_eq!(outer.kind, OpKind::Cast(CastKind::Sext, CastMode::Wrapping));
    assert_eq!(outer.ty, T_I64);

    let inner = get(&generator.body, outer.operands[0]);
    assert_eq!(inner.kind, OpKind::Cast(CastKind::Trunc, CastMode::Wrapping));
    assert_eq!(inner.ty, T_I32);
    assert_eq!(get(&generator.body, inner.operands[0]).kind, OpKind::Arg(0));
}

#[test]
fn a_cast_can_feed_an_arithmetic_op_and_still_type_check() {
    // func mix(a: i64, b: i32) -> i64 { a + b as i64 }
    let mut f = Func::new();
    f.param("a");
    f.param("b");
    let a = f.path("a", I64);
    let b = f.path("b", I32);
    let widened = f.cast(b, I64);
    let sum = f.arith(a, ArithOp::Add, widened, I64);
    f.block(vec![], sum, I64);
    let generator = lower_checked(f, "mix", &[]);

    let add = result(&generator.body);
    assert_eq!(add.kind, OpKind::Add);
    assert_eq!(add.ty, T_I64);
    assert_eq!(get(&generator.body, add.operands[0]).ty, T_I64);

    let cast = get(&generator.body, add.operands[1]);
    assert_eq!(cast.kind, OpKind::Cast(CastKind::Sext, CastMode::Wrapping));
    assert_eq!(cast.ty, T_I64);
}

#[test]
fn casts_inside_if_branches_lower_and_check() {
    // func pick(c: bool, a: i32, b: i64) -> i64 { if c { a as i64 } else { b } }
    let mut f = Func::new();
    f.param("c");
    f.param("a");
    f.param("b");
    let c = f.path("c", BOOL);
    let a = f.path("a", I32);
    let widened = f.cast(a, I64);
    let then_block = f.block(vec![], widened, I64);
    let b = f.path("b", I64);
    let else_block = f.block(vec![], b, I64);
    let if_expr = f.expr(
        Expr::If { condition: c, then_branch: then_block, else_branch: Some(else_block) },
        I64,
    );
    f.block(vec![], if_expr, I64);
    let generator = lower_checked(f, "pick", &[]);

    let if_op = result(&generator.body);
    assert_eq!(if_op.kind, OpKind::If);
    assert_eq!(if_op.ty, T_I64);
    assert_eq!(get(&generator.body, if_op.operands[0]).ty, MirType::Bool);

    let then_result = result(&if_op.regions[0]);
    assert_eq!(then_result.kind, OpKind::Cast(CastKind::Sext, CastMode::Wrapping));
    assert_eq!(then_result.ty, T_I64);
}

#[test]
fn a_cast_through_a_let_binding_lowers() {
    // func via_let(x: i32) -> i64 { let y = x as i64; y }
    let mut f = Func::new();
    f.param("x");
    let x = f.path("x", I32);
    let widened = f.cast(x, I64);
    let y_pat = f.pat("y");
    let y = f.path("y", I64);
    f.block(vec![Statement::Let { pat: y_pat, initializer: Some(widened) }], y, I64);
    let generator = lower_checked(f, "via_let", &[]);
    let op = result(&generator.body);
    assert_eq!(op.kind, OpKind::Cast(CastKind::Sext, CastMode::Wrapping));
    assert_eq!(op.ty, T_I64);
}

#[test]
fn illegal_casts_decline_rather_than_guess() {
    assert!(
        single_cast(I32, BOOL).lower("to_bool", &[]).is_none(),
        "integer -> bool is illegal; use a comparison"
    );
    assert!(
        single_cast(BOOL, F64).lower("b_to_f", &[]).is_none(),
        "bool only converts to integers"
    );
    assert!(
        single_cast(OPAQUE, I32).lower("s_cast", &[]).is_none(),
        "aggregates are not castable with `as`"
    );
}

#[test]
fn bool_to_int_declines_pending_a_codira_mir_rule() {
    assert!(single_cast(BOOL, I32).lower("flag", &[]).is_none());
}

#[test]
fn lowered_ops_carry_their_types() {
    // func typed(x: i64, y: i64) -> bool { x + 1 < y }
    let mut f = Func::new();
    f.param("x");
    f.param("y");
    let x = f.path("x", I64);
    let one = f.int_lit(1, I64);
    let sum = f.arith(x, ArithOp::Add, one, I64);
    let y = f.path("y", I64);
    let lt = f.expr(
        Expr::BinaryOp {
            lhs: sum,
            rhs: y,
            op: Some(BinaryOp::CmpOp(CmpOp::Ord { direction: Direction::Less, strict: true })),
        },
        BOOL,
    );
    f.block(vec![], lt, BOOL);
    let generator = lower_checked(f, "typed", &[]);
    assert_eq!(
        untyped_count(&generator.body),
        0,
        "every op in a concretely-typed body should carry a type"
    );

    let lt = result(&generator.body);
    assert_eq!(lt.ty, MirType::Bool, "a comparison is bool, not its operands' type");
    let add = get(&generator.body, lt.operands[0]);
    assert_eq!(add.ty, T_I64);
    assert_eq!(get(&generator.body, add.operands[1]).ty, T_I64);
}

#[test]
fn float_ops_carry_their_types() {
    // func f(x: f32, y: f32) -> f32 { x * y }
    let mut f = Func::new();
    f.param("x");
    f.param("y");
    let x = f.path("x", F32);
    let y = f.path("y", F32);
    let product = f.arith(x, ArithOp::Multiply, y, F32);
    f.block(vec![], product, F32);
    let generator = lower_checked(f, "f", &[]);
    assert_eq!(result(&generator.body).ty, T_F32);
    assert_eq!(untyped_count(&generator.body), 0);
}

#[test]
fn untypable_hir_types_stay_untyped_rather_than_guessing() {
    let generator = lower_checked(add_generic(), "add", &["N"]);
    let add = result(&generator.body);
    assert_eq!(get(&generator.body, add.operands[0]).ty, T_I64);
    assert_eq!(
        get(&generator.body, add.operands[1]).ty,
        MirType::Untyped,
        "a generic parameter's type is not known here; it must not be invented"
    );
}

#[test]
fn every_previously_lowering_body_still_type_checks() {
    lower_checked(mask(), "mask", &[]);
    lower_checked(clamp_low(), "clamp_low", &["Lo"]);
    lower_checked(neg(), "neg", &[]);
    lower_checked(add_generic(), "add", &["N"]);
    lower_checked(lit(), "lit", &[]);
}

#[test]
fn a_later_parameter_of_the_same_name_wins() {
    // func twice(x: i64, x: i64) -> i64 { x }
    let mut f = Func::new();
    f.param("x");
    f.param("x");
    let x = f.path("x", I64);
    f.block(vec![], x, I64);
    let generator = lower_checked(f, "twice", &[]);
    assert_eq!(result(&generator.body).kind, OpKind::Arg(1));
}

#[test]
fn a_let_binding_is_lowered_again_at_each_use() {
    // func twice(x: i64) -> i64 { let y = x + 1; y * y }
    let mut f = Func::new();
    f.param("x");
    let x = f.path("x", I64);
    let one = f.int_lit(1, I64);
    let sum = f.arith(x, ArithOp::Add, one, I64);
    let y_pat = f.pat("y");
    let y1 = f.path("y", I64);
    let y2 = f.path("y", I64);
    let product = f.arith(y1, ArithOp::Multiply, y2, I64);
    f.block(vec![Statement::Let { pat: y_pat, initializer: Some(sum) }], product, I64);
    let generator = lower_checked(f, "twice", &[]);
    let kinds: Vec<OpKind> = generator.body.ops.iter().map(|op| op.kind.clone()).collect();
    assert_eq!(
        kinds,
        vec![
            OpKind::Arg(0),
            OpKind::Const(Attr::Int(1)),
            OpKind::Add,
            OpKind::Arg(0),
            OpKind::Const(Attr::Int(1)),
            OpKind::Add,
            OpKind::Mul,
        ]
    );
    assert_eq!(result(&generator.body).operands, vec![2, 5]);
}

#[test]
fn an_empty_block_is_unit() {
    // func nothing() { }
    let mut f = Func::new();
    f.expr(Expr::Block { statements: vec![], tail: None }, HirTy::Unit);
    let generator = f.lower("nothing", &[]).expect("an empty body lowers");
    assert_eq!(generator.body.ops.len(), 1);
    assert_eq!(result(&generator.body).kind, OpKind::Const(Attr::Unit));
    assert_eq!(result(&generator.body).ty, MirType::Unit);
}

#[test]
fn expression_statements_and_uninitialized_lets_decline() {
    let mut f = Func::new();
    let one = f.int_lit(1, I64);
    f.block(vec![Statement::Expr(one)], one, I64);
    assert!(f.lower("effect", &[]).is_none());

    let mut g = Func::new();
    let p = g.pat("y");
    let one = g.int_lit(1, I64);
    g.block(vec![Statement::Let { pat: p, initializer: None }], one, I64);
    assert!(g.lower("uninit", &[]).is_none());
}

#[test]
fn an_integer_not_fitting_i64_declines() {
    let mut f = Func::new();
    let big = f.int_lit(1u128 << 63, U64);
    f.block(vec![], big, U64);
    assert!(f.lower("big", &[]).is_none());
}

#[test]
fn integer_not_on_an_int_is_left_untyped() {
    // func flip(x: i64) -> i64 { !x }
    let mut f = Func::new();
    f.param("x");
    let x = f.path("x", I64);
    let n = f.expr(Expr::UnaryOp { expr: x, op: UnaryOp::Not }, I64);
    f.block(vec![], n, I64);
    let generator = lower_checked(f, "flip", &[]);
    assert_eq!(result(&generator.body).kind, OpKind::Not);
    assert_eq!(result(&generator.body).ty, MirType::Untyped);
}

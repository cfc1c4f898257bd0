//! Folding of self-contained `comptime { .. }` blocks.
//!
//! Only single-tail-expression blocks built from bool, integer and float
//! literals, arithmetic, comparison, logical, bitwise and shift operators,
//! unary negation and not, and `if`/`else` are lowered into an operation
//! body for compile-time evaluation; anything else (names, calls, indexing,
//! loops, statements) declines with `None` and the block is left to run at
//! ordinary run time.
//!
//! Expressions live in an arena (a `Vec`, addressed by position) in which
//! every expression is allocated after its operands. Float values are
//! carried by their IEEE-754 bit patterns.
use crate::hir::{
    arith_meaning, bits_meaning, cmp_meaning, logic_meaning, arena_ordered, operands_before, ArithOp, BinaryOp, CmpOp, Direction, Expr, Literal,
    LiteralFloat, LiteralFloatKind, LiteralInt, LiteralIntKind, LogicOp, UnaryOp,
};
use crate::mir::{
    op_bits_value, op_cmp_value, op_int_value, op_logic_value, Attr, Body, MirType, Op, OpKind,
};
use vstd::prelude::*;

verus! {

/// The operation a binary operator lowers to; assignments have none.
pub open spec fn binary_kind(op: BinaryOp) -> Option<OpKind> {
    match op {
        BinaryOp::ArithOp(a) => Some(
            match a {
                ArithOp::Add => OpKind::Add,
                ArithOp::Subtract => OpKind::Sub,
                ArithOp::Multiply => OpKind::Mul,
                ArithOp::Divide => OpKind::Div,
                ArithOp::Remainder => OpKind::Rem,
                ArithOp::LeftShift => OpKind::Shl,
                ArithOp::RightShift => OpKind::Shr,
                ArithOp::BitAnd => OpKind::BitAnd,
                ArithOp::BitOr => OpKind::BitOr,
                ArithOp::BitXor => OpKind::BitXor,
            },
        ),
        BinaryOp::LogicOp(LogicOp::And) => Some(OpKind::And),
        BinaryOp::LogicOp(LogicOp::Or) => Some(OpKind::Or),
        BinaryOp::CmpOp(CmpOp::Eq { negated }) => Some(
            if negated {
                OpKind::Ne
            } else {
                OpKind::Eq
            },
        ),
        BinaryOp::CmpOp(CmpOp::Ord { direction, strict }) => Some(
            match (direction, strict) {
                (Direction::Less, true) => OpKind::Lt,
                (Direction::Less, false) => OpKind::Le,
                (Direction::Greater, true) => OpKind::Gt,
                (Direction::Greater, false) => OpKind::Ge,
            },
        ),
        BinaryOp::Assignment { .. } => None,
    }
}

/// The operation a binary operator lowers to; `None` for assignments,
/// which have no value to fold.
pub fn binary_op_kind(op: BinaryOp) -> (k: Option<OpKind>)
    ensures
        k == binary_kind(op),
{
    match op {
        BinaryOp::ArithOp(ArithOp::Add) => Some(OpKind::Add),
        BinaryOp::ArithOp(ArithOp::Subtract) => Some(OpKind::Sub),
        BinaryOp::ArithOp(ArithOp::Multiply) => Some(OpKind::Mul),
        BinaryOp::ArithOp(ArithOp::Divide) => Some(OpKind::Div),
        BinaryOp::ArithOp(ArithOp::Remainder) => Some(OpKind::Rem),
        BinaryOp::ArithOp(ArithOp::LeftShift) => Some(OpKind::Shl),
        BinaryOp::ArithOp(ArithOp::RightShift) => Some(OpKind::Shr),
        BinaryOp::ArithOp(ArithOp::BitAnd) => Some(OpKind::BitAnd),
        BinaryOp::ArithOp(ArithOp::BitOr) => Some(OpKind::BitOr),
        BinaryOp::ArithOp(ArithOp::BitXor) => Some(OpKind::BitXor),
        BinaryOp::LogicOp(LogicOp::And) => Some(OpKind::And),
        BinaryOp::LogicOp(LogicOp::Or) => Some(OpKind::Or),
        BinaryOp::CmpOp(CmpOp::Eq { negated: false }) => Some(OpKind::Eq),
        BinaryOp::CmpOp(CmpOp::Eq { negated: true }) => Some(OpKind::Ne),
        BinaryOp::CmpOp(CmpOp::Ord { direction: Direction::Less, strict: true }) => Some(OpKind::Lt),
        BinaryOp::CmpOp(CmpOp::Ord { direction: Direction::Less, strict: false }) => Some(OpKind::Le),
        BinaryOp::CmpOp(CmpOp::Ord { direction: Direction::Greater, strict: true }) => Some(
            OpKind::Gt,
        ),
        BinaryOp::CmpOp(CmpOp::Ord { direction: Direction::Greater, strict: false }) => Some(
            OpKind::Ge,
        ),
        BinaryOp::Assignment { .. } => None,
    }
}

/// Every binary operator lowers to an operation that computes what the
/// operator means: an arithmetic operator the same integer (`%` the
/// remainder, never the quotient), a bitwise or shift operator the same
/// word, a comparison the same answer, a logical operator the same truth
/// value; an assignment lowers to no operation.
pub proof fn law_binary_operators_keep_their_meaning(
    op: BinaryOp,
    x: int,
    y: int,
    bx: u64,
    by: u64,
    p: bool,
    q: bool,
)
    ensures
        match op {
            BinaryOp::ArithOp(a) => binary_kind(op) matches Some(k) && (arith_meaning(a, x, y) is Some
                ==> op_int_value(k, x, y) == arith_meaning(a, x, y)) && (bits_meaning(a, bx, by) is Some
                ==> op_bits_value(k, bx, by) == bits_meaning(a, bx, by)),
            BinaryOp::CmpOp(c) => binary_kind(op) matches Some(k) && op_cmp_value(k, x, y) == Some(
                cmp_meaning(c, x, y),
            ),
            BinaryOp::LogicOp(l) => binary_kind(op) matches Some(k) && op_logic_value(k, p, q) == Some(
                logic_meaning(l, p, q),
            ),
            BinaryOp::Assignment { .. } => binary_kind(op) is None,
        },
{
}

/// The operation a unary operator lowers to.
pub open spec fn unary_kind(op: UnaryOp) -> OpKind {
    match op {
        UnaryOp::Neg => OpKind::Neg,
        UnaryOp::Not => OpKind::Not,
        UnaryOp::BitNot => OpKind::BitNot,
    }
}

/// Whether expression `id` lies in the foldable subset.
pub open spec fn foldable(exprs: Seq<Expr>, id: int) -> bool
    decreases id,
{
    if id < 0 || id >= exprs.len() {
        false
    } else {
        match exprs[id] {
            Expr::Literal(Literal::Bool(_)) => true,
            Expr::Literal(Literal::Int(l)) => l.value <= i64::MAX,
            Expr::Literal(Literal::Float(_)) => true,
            Expr::Literal(Literal::String(_)) => false,
            Expr::UnaryOp { expr, .. } => expr < id && foldable(exprs, expr as int),
            Expr::BinaryOp { lhs, rhs, op: Some(op) } => lhs < id && rhs < id && foldable(
                exprs,
                lhs as int,
            ) && foldable(exprs, rhs as int) && binary_kind(op) is Some,
            Expr::BinaryOp { op: None, .. } => false,
            Expr::If { condition, then_branch, else_branch } => condition < id && then_branch < id
                && foldable(exprs, condition as int) && foldable(exprs, then_branch as int) && (
            match else_branch {
                Some(e) => e < id && foldable(exprs, e as int),
                None => true,
            }),
            Expr::Block { statements, tail } => statements@.len() == 0 && (match tail {
                Some(t) => t < id && foldable(exprs, t as int),
                None => false,
            }),
            _ => false,
        }
    }
}

/// How many operations expression `id` lowers to in its own body (the
/// branches of an `if` go to regions of their own).
pub open spec fn op_count(exprs: Seq<Expr>, id: int) -> nat
    decreases id,
{
    if id < 0 || id >= exprs.len() {
        0
    } else {
        match exprs[id] {
            Expr::UnaryOp { expr, .. } => if expr < id {
                op_count(exprs, expr as int) + 1
            } else {
                0
            },
            Expr::BinaryOp { lhs, rhs, .. } => if lhs < id && rhs < id {
                op_count(exprs, lhs as int) + op_count(exprs, rhs as int) + 1
            } else {
                0
            },
            Expr::If { condition, .. } => if condition < id {
                op_count(exprs, condition as int) + 1
            } else {
                0
            },
            Expr::Block { tail: Some(t), .. } => if t < id {
                op_count(exprs, t as int)
            } else {
                0
            },
            _ => 1,
        }
    }
}

/// Operation `o` has kind `k`, the operands `operands` and no regions.
pub open spec fn plain_op(o: Op, k: OpKind, operands: Seq<usize>) -> bool {
    &&& o.kind == k
    &&& o.operands@ == operands
    &&& o.regions@.len() == 0
    &&& o.ty == MirType::Untyped
}

/// `ops[at]` is the result of lowering expression `id`, and the
/// `op_count(exprs, id)` operations ending at `at` are exactly its
/// lowering.
pub open spec fn describes(exprs: Seq<Expr>, id: int, ops: Seq<Op>, at: int) -> bool
    decreases id,
{
    if id < 0 || id >= exprs.len() || at < 0 || at >= ops.len() {
        false
    } else {
        match exprs[id] {
            Expr::Literal(Literal::Bool(b)) => plain_op(ops[at], OpKind::Const(Attr::Bool(b)), seq![]),
            Expr::Literal(Literal::Int(l)) => plain_op(
                ops[at],
                OpKind::Const(Attr::Int(l.value as i64)),
                seq![],
            ),
            Expr::Literal(Literal::Float(f)) => plain_op(
                ops[at],
                OpKind::Const(Attr::Float(f.bits)),
                seq![],
            ),
            Expr::UnaryOp { expr, op } => expr < id && plain_op(
                ops[at],
                unary_kind(op),
                seq![(at - 1) as usize],
            ) && describes(exprs, expr as int, ops, at - 1),
            Expr::BinaryOp { lhs, rhs, op: Some(op) } => {
                let l = at - 1 - op_count(exprs, rhs as int);
                &&& lhs < id
                &&& rhs < id
                &&& binary_kind(op) is Some
                &&& plain_op(ops[at], binary_kind(op).unwrap(), seq![l as usize, (at - 1) as usize])
                &&& describes(exprs, lhs as int, ops, l)
                &&& describes(exprs, rhs as int, ops, at - 1)
            },
            Expr::If { condition, then_branch, else_branch } => {
                let o = ops[at];
                &&& condition < id
                &&& then_branch < id
                &&& o.kind == OpKind::If
                &&& o.ty == MirType::Untyped
                &&& o.operands@ == seq![(at - 1) as usize]
                &&& describes(exprs, condition as int, ops, at - 1)
                &&& o.regions@.len() == 2
                &&& o.regions@[0].ops@.len() == op_count(exprs, then_branch as int)
                &&& describes(
                    exprs,
                    then_branch as int,
                    o.regions@[0].ops@,
                    o.regions@[0].ops@.len() - 1,
                )
                &&& match else_branch {
                    Some(e) => {
                        &&& e < id
                        &&& o.regions@[1].ops@.len() == op_count(exprs, e as int)
                        &&& describes(
                            exprs,
                            e as int,
                            o.regions@[1].ops@,
                            o.regions@[1].ops@.len() - 1,
                        )
                    },
                    None => o.regions@[1].ops@.len() == 0,
                }
            },
            Expr::Block { statements, tail: Some(t) } => statements@.len() == 0 && t < id && describes(
                exprs,
                t as int,
                ops,
                at,
            ),
            _ => false,
        }
    }
}

/// What lowering expression `id` describes depends only on the operations
/// up to its result.
pub proof fn lemma_describes_extend(exprs: Seq<Expr>, id: int, s: Seq<Op>, t: Seq<Op>, at: int)
    requires
        describes(exprs, id, s, at),
        s.len() <= t.len(),
        forall|k: int| 0 <= k < s.len() ==> t[k] == s[k],
    ensures
        describes(exprs, id, t, at),
    decreases id,
{
    match exprs[id] {
        Expr::UnaryOp { expr, .. } => {
            lemma_describes_extend(exprs, expr as int, s, t, at - 1);
        },
        Expr::BinaryOp { lhs, rhs, .. } => {
            lemma_describes_extend(exprs, lhs as int, s, t, at - 1 - op_count(exprs, rhs as int));
            lemma_describes_extend(exprs, rhs as int, s, t, at - 1);
        },
        Expr::If { condition, .. } => {
            lemma_describes_extend(exprs, condition as int, s, t, at - 1);
        },
        Expr::Block { tail: Some(tl), .. } => {
            lemma_describes_extend(exprs, tl as int, s, t, at);
        },
        _ => {},
    }
}

/// The literal's value as an `i64`, when it fits.
pub(crate) fn literal_i64(value: u128) -> (r: Option<i64>)
    ensures
        value <= i64::MAX ==> r == Some(value as i64),
        value > i64::MAX ==> r is None,
{
    if value <= 0x7fff_ffff_ffff_ffffu128 {
        Some(value as i64)
    } else {
        None
    }
}

/// Appends an operation without regions and returns its position.
fn push_plain(body: &mut Body, kind: OpKind, operands: Vec<usize>) -> (r: usize)
    ensures
        final(body).ops@.len() == old(body).ops@.len() + 1,
        forall|k: int| 0 <= k < old(body).ops@.len() ==> final(body).ops@[k] == old(body).ops@[k],
        plain_op(final(body).ops@[r as int], kind, operands@),
        r == old(body).ops@.len(),
{
    crate::mir::push_op(body, kind, operands, MirType::Untyped)
}

/// Lowers expression `id` into `body`, returning the position of its
/// result, or `None` when it lies outside the foldable subset (the body is
/// then left half-built and should be discarded).
fn build_op(exprs: &Vec<Expr>, id: usize, body: &mut Body) -> (r: Option<usize>)
    requires
        arena_ordered(exprs@),
        id < exprs@.len(),
    ensures
        r is Some <==> foldable(exprs@, id as int),
        r is Some ==> {
            &&& final(body).ops@.len() == old(body).ops@.len() + op_count(exprs@, id as int)
            &&& forall|k: int|
                0 <= k < old(body).ops@.len() ==> final(body).ops@[k] == old(body).ops@[k]
            &&& r.unwrap() == final(body).ops@.len() - 1
            &&& describes(exprs@, id as int, final(body).ops@, r.unwrap() as int)
        },
    decreases id,
{
    proof {
        assert(operands_before(exprs@[id as int], id as int));
    }
    match &exprs[id] {
        Expr::Literal(Literal::Bool(b)) => Some(
            push_plain(body, OpKind::Const(Attr::Bool(*b)), Vec::new()),
        ),
        Expr::Literal(Literal::Int(l)) => match literal_i64(l.value) {
            Some(v) => Some(push_plain(body, OpKind::Const(Attr::Int(v)), Vec::new())),
            None => None,
        },
        Expr::Literal(Literal::Float(f)) => Some(
            push_plain(body, OpKind::Const(Attr::Float(f.bits)), Vec::new()),
        ),
        Expr::Literal(Literal::String(_)) => None,
        Expr::UnaryOp { expr, op } => {
            let ghost before = body.ops@;
            let inner = match build_op(exprs, *expr, body) {
                Some(i) => i,
                None => return None,
            };
            let ghost mid = body.ops@;
            let kind = match op {
                UnaryOp::Neg => OpKind::Neg,
                UnaryOp::Not => OpKind::Not,
                UnaryOp::BitNot => OpKind::BitNot,
            };
            let operands = vec![inner];
            assert(operands@ =~= seq![inner]);
            let r = push_plain(body, kind, operands);
            proof {
                lemma_describes_extend(exprs@, *expr as int, mid, body.ops@, inner as int);
            }
            Some(r)
        },
        Expr::BinaryOp { lhs, rhs, op: Some(op) } => {
            let ghost before = body.ops@;
            let l = match build_op(exprs, *lhs, body) {
                Some(i) => i,
                None => return None,
            };
            let ghost mid = body.ops@;
            let rr = match build_op(exprs, *rhs, body) {
                Some(i) => i,
                None => return None,
            };
            let ghost mid2 = body.ops@;
            let kind = match binary_op_kind(*op) {
                Some(k) => k,
                None => return None,
            };
            let operands = vec![l, rr];
            assert(operands@ =~= seq![l, rr]);
            let r = push_plain(body, kind, operands);
            proof {
                lemma_describes_extend(exprs@, *lhs as int, mid, body.ops@, l as int);
                lemma_describes_extend(exprs@, *rhs as int, mid2, body.ops@, rr as int);
            }
            Some(r)
        },
        Expr::BinaryOp { op: None, .. } => None,
        Expr::If { condition, then_branch, else_branch } => {
            let c = match build_op(exprs, *condition, body) {
                Some(i) => i,
                None => return None,
            };
            let ghost mid = body.ops@;
            let mut then_body = Body { ops: Vec::new() };
            match build_op(exprs, *then_branch, &mut then_body) {
                Some(_) => {},
                None => return None,
            }
            let mut else_body = Body { ops: Vec::new() };
            match else_branch {
                Some(e) => match build_op(exprs, *e, &mut else_body) {
                    Some(_) => {},
                    None => return None,
                },
                None => {},
            }
            let r = body.ops.len();
            let regions = vec![then_body, else_body];
            let operands = vec![c];
            assert(operands@ =~= seq![(r - 1) as usize]);
            body.ops.push(Op { kind: OpKind::If, operands, regions, ty: MirType::Untyped });
            proof {
                lemma_describes_extend(exprs@, *condition as int, mid, body.ops@, c as int);
                let o = body.ops@[r as int];
                assert(o.regions@[0] == then_body);
                assert(o.regions@[1] == else_body);
                assert(describes(exprs@, id as int, body.ops@, r as int));
            }
            Some(r)
        },
        Expr::Block { statements, tail } => {
            if statements.len() != 0 {
                return None;
            }
            match tail {
                Some(t) => build_op(exprs, *t, body),
                None => None,
            }
        },
        _ => None,
    }
}

/// Lowers the `comptime` block `block` into an operation body ready for
/// evaluation; `None` when the block lies outside the foldable subset.
pub fn build_body(exprs: &Vec<Expr>, block: usize) -> (r: Option<Body>)
    requires
        arena_ordered(exprs@),
        block < exprs@.len(),
    ensures
        r is Some <==> foldable(exprs@, block as int),
        r matches Some(b) ==> {
            &&& b.ops@.len() == op_count(exprs@, block as int)
            &&& describes(exprs@, block as int, b.ops@, b.ops@.len() - 1)
        },
{
    let mut body = Body { ops: Vec::new() };
    match build_op(exprs, block, &mut body) {
        Some(_) => Some(body),
        None => None,
    }
}

/// A compile-time value; a float by the bit pattern of its `f64`.
#[derive(Debug, PartialEq, Eq)]
pub enum Value {
    Bool(bool),
    Int(i64),
    Float(u64),
    Str(String),
    Tuple(Vec<Value>),
    Unit,
}

/// The sign bit of an `f64`.
pub open spec fn sign_bit() -> int {
    0x8000_0000_0000_0000
}

/// An `f64` is finite when its exponent field is not all ones, that is
/// when its magnitude bits lie below those of infinity.
pub open spec fn float_is_finite(bits: u64) -> bool {
    bits % 0x8000_0000_0000_0000u64 < 0x7ff0_0000_0000_0000u64
}

/// An `f64` is negative (`-0.0` included) when its sign bit is set.
pub open spec fn float_is_negative(bits: u64) -> bool {
    bits >= sign_bit()
}

/// The source expression a value folds back to, with the literal that a
/// negative result wraps in `-`, if any, which is allocated at the end of
/// the arena. Literals in source are unsigned, so a negative integer or
/// float (`-0.0` too) becomes the negation of its magnitude. Units,
/// strings, tuples and non-finite floats have no literal and fold to
/// nothing.
pub open spec fn folded(value: Value, next: int) -> Option<(Expr, Option<Literal>)> {
    match value {
        Value::Bool(b) => Some((Expr::Literal(Literal::Bool(b)), None)),
        Value::Int(v) => if v >= 0 {
            Some(
                (
                    Expr::Literal(
                        Literal::Int(LiteralInt { kind: LiteralIntKind::Unsuffixed, value: v as u128 }),
                    ),
                    None,
                ),
            )
        } else {
            Some(
                (
                    Expr::UnaryOp { expr: next as usize, op: UnaryOp::Neg },
                    Some(
                        Literal::Int(
                            LiteralInt { kind: LiteralIntKind::Unsuffixed, value: (-v) as u128 },
                        ),
                    ),
                ),
            )
        },
        Value::Float(bits) => if !float_is_finite(bits) {
            None
        } else if !float_is_negative(bits) {
            Some(
                (
                    Expr::Literal(
                        Literal::Float(LiteralFloat { kind: LiteralFloatKind::Unsuffixed, bits }),
                    ),
                    None,
                ),
            )
        } else {
            Some(
                (
                    Expr::UnaryOp { expr: next as usize, op: UnaryOp::Neg },
                    Some(
                        Literal::Float(
                            LiteralFloat {
                                kind: LiteralFloatKind::Unsuffixed,
                                bits: (bits - sign_bit()) as u64,
                            },
                        ),
                    ),
                ),
            )
        },
        Value::Str(_) | Value::Tuple(_) | Value::Unit => None,
    }
}

/// The magnitude of a negative `i64`, as a literal value.
fn magnitude(v: i64) -> (m: u128)
    requires
        v < 0,
    ensures
        m == -v,
{
    if v == i64::MIN {
        0x8000_0000_0000_0000u128
    } else {
        (-v) as u128
    }
}

/// Converts an evaluation result back into a source expression, allocating
/// the literal inside a negative result's `-` at the end of `exprs`;
/// `None` where no literal spells the value.
pub fn value_to_expr(exprs: &mut Vec<Expr>, value: Value) -> (r: Option<Expr>)
    ensures
        match folded(value, old(exprs)@.len() as int) {
            None => r is None && final(exprs)@ == old(exprs)@,
            Some((e, None)) => r == Some(e) && final(exprs)@ == old(exprs)@,
            Some((e, Some(inner))) => r == Some(e) && final(exprs)@ == old(exprs)@.push(
                Expr::Literal(inner),
            ),
        },
        arena_ordered(old(exprs)@) ==> arena_ordered(final(exprs)@),
{
    let next = exprs.len();
    match value {
        Value::Bool(b) => Some(Expr::Literal(Literal::Bool(b))),
        Value::Int(v) => {
            if v >= 0 {
                Some(
                    Expr::Literal(
                        Literal::Int(LiteralInt { kind: LiteralIntKind::Unsuffixed, value: v as u128 }),
                    ),
                )
            } else {
                let value = magnitude(v);
                exprs.push(
                    Expr::Literal(Literal::Int(LiteralInt { kind: LiteralIntKind::Unsuffixed, value })),
                );
                proof {
                    if arena_ordered(old(exprs)@) {
                        assert forall|i: int| 0 <= i < exprs@.len() implies #[trigger] operands_before(
                            exprs@[i],
                            i,
                        ) by {
                            if i < next {
                                assert(exprs@[i] == old(exprs)@[i]);
                                assert(operands_before(old(exprs)@[i], i));
                            }
                        }
                    }
                }
                Some(Expr::UnaryOp { expr: next, op: UnaryOp::Neg })
            }
        },
        Value::Float(bits) => {
            if bits % 0x8000_0000_0000_0000u64 >= 0x7ff0_0000_0000_0000u64 {
                None
            } else if bits < 0x8000_0000_0000_0000u64 {
                Some(
                    Expr::Literal(
                        Literal::Float(LiteralFloat { kind: LiteralFloatKind::Unsuffixed, bits }),
                    ),
                )
            } else {
                let magnitude_bits = bits - 0x8000_0000_0000_0000u64;
                exprs.push(
                    Expr::Literal(
                        Literal::Float(
                            LiteralFloat { kind: LiteralFloatKind::Unsuffixed, bits: magnitude_bits },
                        ),
                    ),
                );
                proof {
                    if arena_ordered(old(exprs)@) {
                        assert forall|i: int| 0 <= i < exprs@.len() implies #[trigger] operands_before(
                            exprs@[i],
                            i,
                        ) by {
                            if i < next {
                                assert(exprs@[i] == old(exprs)@[i]);
                                assert(operands_before(old(exprs)@[i], i));
                            }
                        }
                    }
                }
                Some(Expr::UnaryOp { expr: next, op: UnaryOp::Neg })
            }
        },
        Value::Str(_) | Value::Tuple(_) | Value::Unit => None,
    }
}

/// The arena after a folded value is stored back into it: the literal of
/// a negative result, then the expression itself.
pub open spec fn arena_with_folded(exprs: Seq<Expr>, e: Expr, inner: Option<Literal>) -> Seq<
    Expr,
> {
    match inner {
        Some(l) => exprs.push(Expr::Literal(l)).push(e),
        None => exprs.push(e),
    }
}

/// A value folded back into source is itself foldable again, so folding
/// is stable; the one exception is `i64::MIN`, whose magnitude does not fit
/// an `i64` literal.
pub proof fn law_folded_value_refolds(exprs: Seq<Expr>, value: Value)
    requires
        arena_ordered(exprs),
        exprs.len() < usize::MAX,
        folded(value, exprs.len() as int) is Some,
        value != Value::Int(i64::MIN),
    ensures
        ({
            let (e, inner) = folded(value, exprs.len() as int).unwrap();
            let arena = arena_with_folded(exprs, e, inner);
            &&& arena_ordered(arena)
            &&& foldable(arena, arena.len() - 1)
        }),
{
    let (e, inner) = folded(value, exprs.len() as int).unwrap();
    let arena = arena_with_folded(exprs, e, inner);
    assert forall|i: int| 0 <= i < arena.len() implies #[trigger] operands_before(arena[i], i) by {
        if i < exprs.len() {
            assert(arena[i] == exprs[i]);
            assert(operands_before(exprs[i], i));
        }
    }
    match inner {
        Some(l) => {
            let n = exprs.len() as int;
            assert(arena[n] == Expr::Literal(l));
            match value {
                Value::Int(v) => {
                    assert(v != i64::MIN);
                    assert(l == Literal::Int(
                        LiteralInt { kind: LiteralIntKind::Unsuffixed, value: (-v) as u128 },
                    ));
                    assert((-v) as u128 <= i64::MAX);
                },
                _ => {},
            }
            assert(foldable(arena, n));
            assert(arena[n + 1] == e);
            assert(e == Expr::UnaryOp { expr: n as usize, op: UnaryOp::Neg });
        },
        None => {},
    }
}

} // verus!

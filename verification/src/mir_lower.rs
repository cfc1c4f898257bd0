//! Lowering of function bodies into typed operation bodies, the generators
//! that elaboration instantiates.
//!
//! Parameters become `Arg`, the function's own generic parameters become
//! `ParamRef`, and `let` bindings and multi-statement blocks are accepted
//! besides the literals, operators, casts and `if` of `comptime` folding;
//! calls of plain named functions become `Call` with the callee's name.
//! Method calls, calls through a value, loops, aggregates, uninitialized
//! or destructuring `let`s and expression statements decline with `None`.
//!
//! A `let` binding is not computed once: each use lowers its initializer
//! again into the body being built, which is sound for this side-effect
//! free subset and lets a binding be used inside an `if` branch, whose body
//! is separate.
//!
//! Every operation carries the machine type of its HIR type when that type
//! has one (`bool`, integers, floats, unit) and the operation's category
//! admits it; otherwise it is left untyped rather than guessed.
use crate::cast::{
    cast_matrix, check_cast, float_bits, int_bits, CastCheck, CastOp, CastType, FloatBitness,
    IntBitness,
};
use crate::comptime_fold::{binary_kind, binary_op_kind, literal_i64, unary_kind};
use crate::hir::{arena_ordered, operands_before, statement_before, Expr, Literal, Pat, Statement, UnaryOp};
use crate::mir::{
    body_view, empty_body, kind_view, op_well_formed, push_if, push_op, well_formed_ops, Attr, Body,
    Generator, GeneratorParam, KindView, MirType, OpKind, OpView,
};
use vstd::prelude::*;

verus! {

/// The inferred type of an expression, as lowering reads it.
#[derive(Debug, Clone, Copy, PartialEq, Eq, Structural)]
pub enum HirTy {
    /// The unit type, `()`.
    Unit,
    /// Any other type, as a cast sees it.
    Scalar(CastType),
}

/// What a cast sees of a type: the unit type is an aggregate.
pub open spec fn cast_view(t: HirTy) -> CastType {
    match t {
        HirTy::Unit => CastType::Other,
        HirTy::Scalar(c) => c,
    }
}

/// The machine type representing a HIR type, if it has one: structs,
/// arrays, functions, type parameters, `!`, unresolved and error types
/// have none.
pub open spec fn mir_type_of(t: HirTy, pointer_bits: u32) -> Option<MirType> {
    match t {
        HirTy::Unit => Some(MirType::Unit),
        HirTy::Scalar(CastType::Bool) => Some(MirType::Bool),
        HirTy::Scalar(CastType::Int { signed, bitness }) => Some(
            MirType::Int { width: int_bits(bitness, pointer_bits), signed },
        ),
        HirTy::Scalar(CastType::Float { bitness }) => Some(
            MirType::Float { width: float_bits(bitness) },
        ),
        _ => None,
    }
}

/// The machine type of a HIR type, `Untyped` where there is none.
pub open spec fn type_or_untyped(t: HirTy, pointer_bits: u32) -> MirType {
    match mir_type_of(t, pointer_bits) {
        Some(m) => m,
        None => MirType::Untyped,
    }
}

/// The type an operation of kind `kind` carries: `ty` when it fits the
/// operation's category (arithmetic on numbers, bitwise on integers,
/// comparisons and logic on `bool`), else `Untyped`.
pub open spec fn typed_result(kind: OpKind, ty: MirType) -> MirType {
    let ok = match kind {
        OpKind::Add | OpKind::Sub | OpKind::Mul | OpKind::Div | OpKind::Rem | OpKind::Neg => {
            ty.is_arithmetic()
        },
        OpKind::BitAnd | OpKind::BitOr | OpKind::BitXor | OpKind::Shl | OpKind::Shr => ty.is_int(),
        OpKind::Eq | OpKind::Ne | OpKind::Lt | OpKind::Le | OpKind::Gt | OpKind::Ge | OpKind::And
        | OpKind::Or | OpKind::Not => ty == MirType::Bool,
        _ => true,
    };
    if ok {
        ty
    } else {
        MirType::Untyped
    }
}

/// The machine type representing `t`, if it has one.
pub fn ty_to_mir_type(t: HirTy, pointer_bits: u32) -> (r: Option<MirType>)
    ensures
        r == mir_type_of(t, pointer_bits),
{
    match t {
        HirTy::Unit => Some(MirType::Unit),
        HirTy::Scalar(CastType::Bool) => Some(MirType::Bool),
        HirTy::Scalar(CastType::Int { signed, bitness }) => {
            let width = match bitness {
                IntBitness::X8 => 8,
                IntBitness::X16 => 16,
                IntBitness::X32 => 32,
                IntBitness::X64 => 64,
                IntBitness::X128 => 128,
                IntBitness::Xsize => pointer_bits,
            };
            Some(MirType::Int { width, signed })
        },
        HirTy::Scalar(CastType::Float { bitness }) => {
            let width = match bitness {
                FloatBitness::X32 => 32,
                FloatBitness::X64 => 64,
            };
            Some(MirType::Float { width })
        },
        _ => None,
    }
}

/// The type an operation of kind `kind` carries, given its HIR type `ty`.
pub fn typed_result_of(kind: &OpKind, ty: MirType) -> (r: MirType)
    ensures
        r == typed_result(*kind, ty),
{
    let ok = match kind {
        OpKind::Add | OpKind::Sub | OpKind::Mul | OpKind::Div | OpKind::Rem | OpKind::Neg => {
            match ty {
                MirType::Int { .. } | MirType::Float { .. } => true,
                _ => false,
            }
        },
        OpKind::BitAnd | OpKind::BitOr | OpKind::BitXor | OpKind::Shl | OpKind::Shr => {
            match ty {
                MirType::Int { .. } => true,
                _ => false,
            }
        },
        OpKind::Eq | OpKind::Ne | OpKind::Lt | OpKind::Le | OpKind::Gt | OpKind::Ge | OpKind::And
        | OpKind::Or | OpKind::Not => ty == MirType::Bool,
        _ => true,
    };
    if ok {
        ty
    } else {
        MirType::Untyped
    }
}

/// A function body as lowering reads it: the expression and pattern
/// arenas, the parameters' patterns, and the body's root expression.
pub struct HirBody {
    pub exprs: Vec<Expr>,
    pub pats: Vec<Pat>,
    pub params: Vec<usize>,
    pub body_expr: usize,
}

/// Everything lowering consults besides the bindings in scope: the arenas,
/// the types, the target's pointer width, the parameters by name (a later
/// parameter of the same name wins) with their positions, and the generic
/// parameters' names.
pub struct Ctx {
    pub exprs: Seq<Expr>,
    pub pats: Seq<Pat>,
    pub types: Seq<HirTy>,
    pub pointer_bits: u32,
    pub params: Seq<(Seq<char>, u32)>,
    pub generics: Seq<Seq<char>>,
}

/// The value bound to `name` by the last entry that binds it.
pub open spec fn last_binding<V>(entries: Seq<(Seq<char>, V)>, name: Seq<char>) -> Option<V>
    decreases entries.len(),
{
    if entries.len() == 0 {
        None
    } else if entries.last().0 == name {
        Some(entries.last().1)
    } else {
        last_binding(entries.drop_last(), name)
    }
}

/// The machine type of expression `id`.
pub open spec fn ty_of(c: Ctx, id: nat) -> MirType {
    type_or_untyped(c.types[id as int], c.pointer_bits)
}

/// An operation without regions.
pub open spec fn plain(kind: KindView, operands: Seq<usize>, ty: MirType) -> OpView {
    OpView { kind, operands, regions: Seq::empty(), ty }
}

/// `ops` followed by one operation over the result of `ops`, placed at
/// `base` onwards.
pub open spec fn then_op(ops: Seq<OpView>, base: nat, kind: KindView, ty: MirType) -> Seq<OpView> {
    ops.push(plain(kind, seq![(base + ops.len() - 1) as usize], ty))
}

/// Lowering expression `id` into a body whose next position is `base`,
/// with the `let` bindings `locals` in scope (a later binding of a name
/// shadows an earlier one): the operations appended and the bindings in
/// scope afterwards, or `None` when the expression lies outside the
/// lowered subset.
pub open spec fn lowered(c: Ctx, locals: Seq<(Seq<char>, usize)>, id: nat, base: nat) -> Option<
    (Seq<OpView>, Seq<(Seq<char>, usize)>),
>
    decreases id, 1nat, 0nat,
{
    if id >= c.exprs.len() {
        None
    } else {
        match c.exprs[id as int] {
            Expr::Literal(Literal::Bool(b)) => Some(
                (seq![plain(KindView::Plain(OpKind::Const(Attr::Bool(b))), seq![], ty_of(c, id))], locals),
            ),
            Expr::Literal(Literal::Int(l)) => if l.value <= i64::MAX {
                Some(
                    (
                        seq![
                            plain(
                                KindView::Plain(OpKind::Const(Attr::Int(l.value as i64))),
                                seq![],
                                ty_of(c, id),
                            ),
                        ],
                        locals,
                    ),
                )
            } else {
                None
            },
            Expr::Literal(Literal::Float(f)) => Some(
                (
                    seq![plain(KindView::Plain(OpKind::Const(Attr::Float(f.bits))), seq![], ty_of(c, id))],
                    locals,
                ),
            ),
            Expr::Literal(Literal::String(_)) => None,
            Expr::Path { ident: Some(n) } => {
                let name = n@;
                match last_binding(c.params, name) {
                    Some(i) => Some(
                        (seq![plain(KindView::Plain(OpKind::Arg(i)), seq![], ty_of(c, id))], locals),
                    ),
                    None => if c.generics.contains(name) {
                        Some((seq![plain(KindView::ParamRef(name), seq![], ty_of(c, id))], locals))
                    } else {
                        match last_binding(locals, name) {
                            Some(init) => if init < id {
                                lowered(c, locals, init as nat, base)
                            } else {
                                None
                            },
                            None => None,
                        }
                    },
                }
            },
            Expr::Path { ident: None } => None,
            Expr::UnaryOp { expr, op } => if expr < id {
                match lowered(c, locals, expr as nat, base) {
                    Some((ops, l)) => {
                        let kind = unary_kind(op);
                        Some(
                            (
                                then_op(ops, base, KindView::Plain(kind), typed_result(kind, ty_of(c, id))),
                                l,
                            ),
                        )
                    },
                    None => None,
                }
            } else {
                None
            },
            Expr::BinaryOp { lhs, rhs, op: Some(op) } => if lhs < id && rhs < id {
                match lowered(c, locals, lhs as nat, base) {
                    Some((lops, l1)) => match lowered(c, l1, rhs as nat, base + lops.len()) {
                        Some((rops, l2)) => match binary_kind(op) {
                            Some(kind) => {
                                let ops = lops + rops;
                                Some(
                                    (
                                        ops.push(
                                            plain(
                                                KindView::Plain(kind),
                                                seq![
                                                    (base + lops.len() - 1) as usize,
                                                    (base + ops.len() - 1) as usize,
                                                ],
                                                typed_result(kind, ty_of(c, id)),
                                            ),
                                        ),
                                        l2,
                                    ),
                                )
                            },
                            None => None,
                        },
                        None => None,
                    },
                    None => None,
                }
            } else {
                None
            },
            Expr::BinaryOp { op: None, .. } => None,
            Expr::Cast { expr } => if expr < id {
                let source = c.types[expr as int];
                let target = c.types[id as int];
                match cast_matrix(cast_view(source), cast_view(target), c.pointer_bits) {
                    CastCheck::Legal(CastOp::Identity) => lowered(c, locals, expr as nat, base),
                    CastCheck::Legal(CastOp::Convert(kind, mode)) => match (
                        mir_type_of(target, c.pointer_bits),
                        mir_type_of(source, c.pointer_bits),
                    ) {
                        (Some(tt), Some(st)) => if st == MirType::Bool {
                            None
                        } else {
                            match lowered(c, locals, expr as nat, base) {
                                Some((ops, l)) => Some(
                                    (then_op(ops, base, KindView::Plain(OpKind::Cast(kind, mode)), tt), l),
                                ),
                                None => None,
                            }
                        },
                        _ => None,
                    },
                    _ => None,
                }
            } else {
                None
            },
            Expr::If { condition, then_branch, else_branch } => if condition < id && then_branch
                < id && (match else_branch {
                Some(e) => e < id,
                None => true,
            }) {
                match lowered(c, locals, condition as nat, base) {
                    Some((cops, l1)) => match lowered(c, l1, then_branch as nat, 0) {
                        Some((tops, l2)) => {
                            let else_part = match else_branch {
                                Some(e) => lowered(c, l2, e as nat, 0),
                                None => Some((Seq::empty(), l2)),
                            };
                            match else_part {
                                Some((eops, l3)) => Some(
                                    (
                                        cops.push(
                                            OpView {
                                                kind: KindView::Plain(OpKind::If),
                                                operands: seq![(base + cops.len() - 1) as usize],
                                                regions: seq![tops, eops],
                                                ty: ty_of(c, id),
                                            },
                                        ),
                                        l3,
                                    ),
                                ),
                                None => None,
                            }
                        },
                        None => None,
                    },
                    None => None,
                }
            } else {
                None
            },
            Expr::Block { statements, tail } => match block_scope(
                c,
                locals,
                id,
                statements@.len(),
            ) {
                Some(l) => match tail {
                    Some(t) => if t < id {
                        lowered(c, l, t as nat, base)
                    } else {
                        None
                    },
                    None => Some(
                        (seq![plain(KindView::Plain(OpKind::Const(Attr::Unit)), seq![], MirType::Unit)], l),
                    ),
                },
                None => None,
            },
            Expr::Call { callee, args } => match c.exprs[callee as int] {
                Expr::Path { ident: Some(n) } => {
                    let name = n@;
                    if last_binding(c.params, name) is Some || c.generics.contains(name)
                        || last_binding(locals, name) is Some {
                        None
                    } else {
                        match lowered_args(c, locals, id, args@.len(), base) {
                            Some((ops, ids, l)) => Some(
                                (ops.push(plain(KindView::Call(name), ids, ty_of(c, id))), l),
                            ),
                            None => None,
                        }
                    }
                },
                _ => None,
            },
            Expr::Other => None,
        }
    }
}

/// The bindings in scope after the first `k` statements of block `id`:
/// each must be a `let` of a plain name with an initializer, which is
/// lowered once, on its own, to check that it lies in the subset.
pub open spec fn block_scope(c: Ctx, locals: Seq<(Seq<char>, usize)>, id: nat, k: nat) -> Option<
    Seq<(Seq<char>, usize)>,
>
    decreases id, 0nat, k,
{
    if id >= c.exprs.len() {
        None
    } else {
        match c.exprs[id as int] {
            Expr::Block { statements, .. } => if k == 0 || k > statements@.len() {
                Some(locals)
            } else {
                match block_scope(c, locals, id, (k - 1) as nat) {
                    Some(l) => match statements@[k - 1] {
                        Statement::Let { pat, initializer: Some(init) } => if init < id {
                            match lowered(c, l, init as nat, 0) {
                                Some((_, l2)) => match c.pats[pat as int] {
                                    Pat::Bind { name } => Some(l2.push((name@, init))),
                                    Pat::Other => None,
                                },
                                None => None,
                            }
                        } else {
                            None
                        },
                        _ => None,
                    },
                    None => None,
                }
            },
            _ => None,
        }
    }
}

/// Lowering the first `k` arguments of call `id` in order from position
/// `base`: the operations, the positions of the arguments' results, and
/// the bindings in scope afterwards.
pub open spec fn lowered_args(
    c: Ctx,
    locals: Seq<(Seq<char>, usize)>,
    id: nat,
    k: nat,
    base: nat,
) -> Option<(Seq<OpView>, Seq<usize>, Seq<(Seq<char>, usize)>)>
    decreases id, 0nat, k,
{
    if id >= c.exprs.len() {
        None
    } else {
        match c.exprs[id as int] {
            Expr::Call { args, .. } => if k == 0 || k > args@.len() {
                Some((Seq::empty(), Seq::empty(), locals))
            } else {
                match lowered_args(c, locals, id, (k - 1) as nat, base) {
                    Some((ops, ids, l)) => {
                        let a = args@[k - 1];
                        if a < id {
                            match lowered(c, l, a as nat, base + ops.len()) {
                                Some((aops, l2)) => Some(
                                    (
                                        ops + aops,
                                        ids.push((base + ops.len() + aops.len() - 1) as usize),
                                        l2,
                                    ),
                                ),
                                None => None,
                            }
                        } else {
                            None
                        }
                    },
                    None => None,
                }
            },
            _ => None,
        }
    }
}

/// Once an argument fails to lower, the call fails whatever follows.
pub proof fn lemma_args_fail(
    c: Ctx,
    locals: Seq<(Seq<char>, usize)>,
    id: nat,
    k: nat,
    k2: nat,
    base: nat,
)
    requires
        lowered_args(c, locals, id, k, base) is None,
        k <= k2,
        c.exprs[id as int] matches Expr::Call { args, .. } && k2 <= args@.len(),
    ensures
        lowered_args(c, locals, id, k2, base) is None,
    decreases k2,
{
    if k2 > k {
        lemma_args_fail(c, locals, id, k, (k2 - 1) as nat, base);
    }
}

/// Once a statement fails, the block fails whatever follows.
pub proof fn lemma_block_fail(c: Ctx, locals: Seq<(Seq<char>, usize)>, id: nat, k: nat, k2: nat)
    requires
        block_scope(c, locals, id, k) is None,
        k <= k2,
        c.exprs[id as int] matches Expr::Block { statements, .. } && k2 <= statements@.len(),
    ensures
        block_scope(c, locals, id, k2) is None,
    decreases k2,
{
    if k2 > k {
        lemma_block_fail(c, locals, id, k, (k2 - 1) as nat);
    }
}

/// Appending well-formed operations after well-formed operations keeps
/// them well formed.
proof fn lemma_wf_concat(a: Seq<OpView>, b: Seq<OpView>, base: int)
    requires
        well_formed_ops(a, base),
        well_formed_ops(b, base + a.len()),
    ensures
        well_formed_ops(a + b, base),
{
    assert forall|i: int| 0 <= i < (a + b).len() implies op_well_formed(#[trigger] (a + b)[i], base + i) by {
        if i < a.len() {
            assert((a + b)[i] == a[i]);
            assert(op_well_formed(a[i], base + i));
        } else {
            let k = i - a.len();
            assert((a + b)[i] == b[k]);
            assert(op_well_formed(b[k], base + a.len() + k));
            assert(base + a.len() + k == base + i);
        }
    }
}

/// Appending a well-formed operation keeps the operations well formed.
proof fn lemma_wf_push(a: Seq<OpView>, o: OpView, base: int)
    requires
        well_formed_ops(a, base),
        op_well_formed(o, base + a.len()),
    ensures
        well_formed_ops(a.push(o), base),
{
    assert forall|i: int| 0 <= i < a.push(o).len() implies op_well_formed(#[trigger] a.push(o)[i], base + i) by {
        if i < a.len() {
            assert(a.push(o)[i] == a[i]);
            assert(op_well_formed(a[i], base + i));
        }
    }
}

/// One operation over the last result of well-formed, non-empty
/// operations keeps them well formed.
proof fn lemma_wf_then(ops: Seq<OpView>, base: nat, kind: KindView, ty: MirType)
    requires
        well_formed_ops(ops, base as int),
        ops.len() >= 1,
    ensures
        well_formed_ops(then_op(ops, base, kind, ty), base as int),
        then_op(ops, base, kind, ty).len() == ops.len() + 1,
{
    let o = plain(kind, seq![(base + ops.len() - 1) as usize], ty);
    assert(op_well_formed(o, (base + ops.len()) as int));
    lemma_wf_push(ops, o, base as int);
}

/// A lowering is never empty, and its operations refer only to earlier
/// ones.
#[verifier::spinoff_prover]
#[verifier::rlimit(100)]
proof fn lemma_lowered_wf(c: Ctx, locals: Seq<(Seq<char>, usize)>, id: nat, base: nat)
    ensures
        lowered(c, locals, id, base) matches Some((ops, _)) ==> ops.len() >= 1 && well_formed_ops(
            ops,
            base as int,
        ),
    decreases id, 1nat, 0nat,
{
    if id < c.exprs.len() {
        let single = |o: OpView| seq![o];
        match c.exprs[id as int] {
            Expr::Literal(l) => {
                if let Some((ops, _)) = lowered(c, locals, id, base) {
                    assert(ops.len() == 1);
                    assert(op_well_formed(ops[0], base as int));
                }
            },
            Expr::Path { ident: Some(n) } => {
                match last_binding(c.params, n@) {
                    Some(_) => {
                        if let Some((ops, _)) = lowered(c, locals, id, base) {
                            assert(op_well_formed(ops[0], base as int));
                        }
                    },
                    None => if c.generics.contains(n@) {
                        if let Some((ops, _)) = lowered(c, locals, id, base) {
                            assert(op_well_formed(ops[0], base as int));
                        }
                    } else {
                        match last_binding(locals, n@) {
                            Some(init) => if init < id {
                                lemma_lowered_wf(c, locals, init as nat, base);
                            },
                            None => {},
                        }
                    },
                }
            },
            Expr::UnaryOp { expr, op } => if expr < id {
                lemma_lowered_wf(c, locals, expr as nat, base);
                if let Some((ops, l)) = lowered(c, locals, expr as nat, base) {
                    let kind = unary_kind(op);
                    lemma_wf_then(ops, base, KindView::Plain(kind), typed_result(kind, ty_of(c, id)));
                }
            },
            Expr::BinaryOp { lhs, rhs, op: Some(op) } => if lhs < id && rhs < id {
                lemma_lowered_wf(c, locals, lhs as nat, base);
                if let Some((lops, l1)) = lowered(c, locals, lhs as nat, base) {
                    lemma_lowered_wf(c, l1, rhs as nat, base + lops.len());
                    if let Some((rops, l2)) = lowered(c, l1, rhs as nat, base + lops.len()) {
                        if let Some(kind) = binary_kind(op) {
                            let ops = lops + rops;
                            lemma_wf_concat(lops, rops, base as int);
                            let o = plain(
                                KindView::Plain(kind),
                                seq![(base + lops.len() - 1) as usize, (base + ops.len() - 1) as usize],
                                typed_result(kind, ty_of(c, id)),
                            );
                            assert(op_well_formed(o, (base + ops.len()) as int));
                            lemma_wf_push(ops, o, base as int);
                        }
                    }
                }
            },
            Expr::Cast { expr } => if expr < id {
                lemma_lowered_wf(c, locals, expr as nat, base);
                if let Some((ops, l)) = lowered(c, locals, expr as nat, base) {
                    let source = c.types[expr as int];
                    let target = c.types[id as int];
                    match cast_matrix(cast_view(source), cast_view(target), c.pointer_bits) {
                        CastCheck::Legal(CastOp::Convert(kind, mode)) => {
                            if let Some(tt) = mir_type_of(target, c.pointer_bits) {
                                lemma_wf_then(ops, base, KindView::Plain(OpKind::Cast(kind, mode)), tt);
                            }
                        },
                        _ => {},
                    }
                }
            },
            Expr::If { condition, then_branch, else_branch } => if condition < id && then_branch < id && (
            match else_branch {
                Some(e) => e < id,
                None => true,
            }) {
                lemma_lowered_wf(c, locals, condition as nat, base);
                if let Some((cops, l1)) = lowered(c, locals, condition as nat, base) {
                    lemma_lowered_wf(c, l1, then_branch as nat, 0);
                    if let Some((tops, l2)) = lowered(c, l1, then_branch as nat, 0) {
                        let else_part = match else_branch {
                            Some(e) => {
                                lemma_lowered_wf(c, l2, e as nat, 0);
                                lowered(c, l2, e as nat, 0)
                            },
                            None => Some((Seq::<OpView>::empty(), l2)),
                        };
                        if let Some((eops, l3)) = else_part {
                            let o = OpView {
                                kind: KindView::Plain(OpKind::If),
                                operands: seq![(base + cops.len() - 1) as usize],
                                regions: seq![tops, eops],
                                ty: ty_of(c, id),
                            };
                            assert(well_formed_ops(eops, 0));
                            assert(o.regions[0] == tops && o.regions[1] == eops);
                            assert(op_well_formed(o, (base + cops.len()) as int));
                            lemma_wf_push(cops, o, base as int);
                        }
                    }
                }
            },
            Expr::Block { statements, tail } => {
                if let Some(l) = block_scope(c, locals, id, statements@.len()) {
                    match tail {
                        Some(t) => if t < id {
                            lemma_lowered_wf(c, l, t as nat, base);
                        },
                        None => {
                            if let Some((ops, _)) = lowered(c, locals, id, base) {
                                assert(op_well_formed(ops[0], base as int));
                            }
                        },
                    }
                }
            },
            Expr::Call { callee, args } => {
                if let Expr::Path { ident: Some(n) } = c.exprs[callee as int] {
                    lemma_args_wf(c, locals, id, args@.len(), base);
                    if let Some((ops, ids, l)) = lowered_args(c, locals, id, args@.len(), base) {
                        let o = plain(KindView::Call(n@), ids, ty_of(c, id));
                        assert(op_well_formed(o, (base + ops.len()) as int));
                        lemma_wf_push(ops, o, base as int);
                    }
                }
            },
            _ => {},
        }
    }
}

/// The lowered arguments of a call refer only to earlier operations, and
/// each argument's result is among them.
proof fn lemma_args_wf(c: Ctx, locals: Seq<(Seq<char>, usize)>, id: nat, k: nat, base: nat)
    ensures
        lowered_args(c, locals, id, k, base) matches Some((ops, ids, _)) ==> well_formed_ops(ops, base as int)
            && forall|t: int| 0 <= t < ids.len() ==> #[trigger] ids[t] < base + ops.len(),
    decreases id, 0nat, k,
{
    if id < c.exprs.len() {
        if let Expr::Call { args, .. } = c.exprs[id as int] {
            if k > 0 && k <= args@.len() {
                lemma_args_wf(c, locals, id, (k - 1) as nat, base);
                if let Some((ops, ids, l)) = lowered_args(c, locals, id, (k - 1) as nat, base) {
                    let a = args@[k - 1];
                    if a < id {
                        lemma_lowered_wf(c, l, a as nat, base + ops.len());
                        if let Some((aops, l2)) = lowered(c, l, a as nat, base + ops.len()) {
                            lemma_wf_concat(ops, aops, base as int);
                            let ids2 = ids.push((base + ops.len() + aops.len() - 1) as usize);
                            assert forall|t: int| 0 <= t < ids2.len() implies #[trigger] ids2[t] < base + (ops
                                + aops).len() by {
                                if t < ids.len() {
                                    assert(ids2[t] == ids[t]);
                                }
                            }
                        }
                    }
                }
            }
        }
    }
}

/// The patterns of every `let` statement lie in the pattern arena.
pub open spec fn let_pats_ok(e: Expr, pats: nat) -> bool {
    match e {
        Expr::Block { statements, .. } => forall|k: int|
            0 <= k < statements@.len() ==> match #[trigger] statements@[k] {
                Statement::Let { pat, .. } => pat < pats,
                _ => true,
            },
        _ => true,
    }
}

/// A body lowering can read: the arena is ordered, every pattern named is
/// in range, every expression has a type, and the root is an expression.
pub open spec fn body_ok(b: HirBody, types: Seq<HirTy>) -> bool {
    &&& arena_ordered(b.exprs@)
    &&& types.len() == b.exprs@.len()
    &&& forall|i: int| 0 <= i < b.exprs@.len() ==> #[trigger] let_pats_ok(b.exprs@[i], b.pats@.len())
    &&& forall|k: int| 0 <= k < b.params@.len() ==> #[trigger] b.params@[k] < b.pats@.len()
    &&& b.body_expr < b.exprs@.len()
}

/// Named entries by their texts.
pub open spec fn entries_view<V>(v: Seq<(String, V)>) -> Seq<(Seq<char>, V)> {
    v.map_values(|e: (String, V)| (e.0@, e.1))
}

/// Names by their texts.
pub open spec fn names_view(v: Seq<String>) -> Seq<Seq<char>> {
    v.map_values(|s: String| s@)
}

/// The outcome of lowering `id` from a body viewed as `before` with
/// bindings `locals`: on success the result is the last operation
/// appended, the body grew by exactly the lowered operations, and the
/// bindings are those after lowering; otherwise `None`.
pub open spec fn lowering_result(
    c: Ctx,
    locals: Seq<(Seq<char>, usize)>,
    id: nat,
    before: Seq<OpView>,
    after: Seq<OpView>,
    locals_after: Seq<(Seq<char>, usize)>,
    r: Option<usize>,
) -> bool {
    match lowered(c, locals, id, before.len()) {
        Some((ops, l)) => {
            &&& ops.len() > 0
            &&& r == Some((before.len() + ops.len() - 1) as usize)
            &&& after == before + ops
            &&& locals_after == l
        },
        None => r is None,
    }
}

/// The entry bound last to `name`, scanning from the end.
fn find_last<V: Copy>(entries: &Vec<(String, V)>, name: &str) -> (r: Option<V>)
    ensures
        r == last_binding(entries_view(entries@), name@),
{
    let ghost e = entries_view(entries@);
    let mut i: usize = entries.len();
    assert(e.take(i as int) =~= e);
    while i > 0
        invariant
            0 <= i <= entries@.len(),
            e == entries_view(entries@),
            last_binding(e, name@) == last_binding(e.take(i as int), name@),
        decreases i,
    {
        let ghost t = e.take(i as int);
        assert(t.drop_last() =~= e.take(i - 1));
        assert(t.last() == (entries@[i - 1].0@, entries@[i - 1].1));
        if crate::text::str_eq(entries[i - 1].0.as_str(), name) {
            return Some(entries[i - 1].1);
        }
        i = i - 1;
    }
    None
}

/// Whether `names` holds `name`.
fn holds(names: &Vec<String>, name: &str) -> (b: bool)
    ensures
        b == names_view(names@).contains(name@),
{
    let mut i: usize = 0;
    while i < names.len()
        invariant
            0 <= i <= names@.len(),
            forall|j: int| 0 <= j < i ==> names@[j]@ != name@,
        decreases names@.len() - i,
    {
        if crate::text::str_eq(names[i].as_str(), name) {
            assert(names_view(names@)[i as int] == name@);
            return true;
        }
        i = i + 1;
    }
    proof {
        if names_view(names@).contains(name@) {
            let k = choose|k: int| 0 <= k < names_view(names@).len() && names_view(names@)[k] == name@;
            assert(names@[k]@ == name@);
        }
    }
    false
}

/// The state of a lowering: the body and types read, the target's pointer
/// width, parameters and generic parameters by name, and the `let`
/// bindings in scope, each naming its initializer.
struct Lowerer<'a> {
    hir: &'a HirBody,
    types: &'a Vec<HirTy>,
    pointer_bits: u32,
    params: Vec<(String, u32)>,
    generics: Vec<String>,
    locals: Vec<(String, usize)>,
}

impl<'a> Lowerer<'a> {
    spec fn ctx(&self) -> Ctx {
        Ctx {
            exprs: self.hir.exprs@,
            pats: self.hir.pats@,
            types: self.types@,
            pointer_bits: self.pointer_bits,
            params: entries_view(self.params@),
            generics: names_view(self.generics@),
        }
    }

    spec fn locals_view(&self) -> Seq<(Seq<char>, usize)> {
        entries_view(self.locals@)
    }

    spec fn wf(&self) -> bool {
        body_ok(*self.hir, self.types@)
    }

    /// Everything but the bindings in scope is as in `other`.
    spec fn same_frame(&self, other: Lowerer<'a>) -> bool {
        &&& self.hir == other.hir
        &&& self.types == other.types
        &&& self.pointer_bits == other.pointer_bits
        &&& self.params == other.params
        &&& self.generics == other.generics
    }

    /// Lowers expression `id` into `body`; `None` outside the subset.
    fn lower_expr(&mut self, id: usize, body: &mut Body) -> (r: Option<usize>)
        requires
            old(self).wf(),
            id < old(self).hir.exprs@.len(),
        ensures
            final(self).same_frame(*old(self)),
            final(self).ctx() == old(self).ctx(),
            final(self).wf(),
            lowering_result(
                old(self).ctx(),
                old(self).locals_view(),
                id as nat,
                body_view(*old(body)),
                body_view(*final(body)),
                final(self).locals_view(),
                r,
            ),
        decreases id, 2nat,
    {
        proof {
            crate::mir::lemma_ops_view_len(*body, body.ops@.len() as int);
            assert(operands_before(self.hir.exprs@[id as int], id as int));
        }
        let ghost c = self.ctx();
        let ghost before = body_view(*body);
        let ty = match ty_to_mir_type(self.types[id], self.pointer_bits) {
            Some(t) => t,
            None => MirType::Untyped,
        };
        match &self.hir.exprs[id] {
            Expr::Literal(Literal::Bool(b)) => {
                let r = push_op(body, OpKind::Const(Attr::Bool(*b)), Vec::new(), ty);
                proof {
                    assert(body_view(*body) =~= before + seq![
                        plain(KindView::Plain(OpKind::Const(Attr::Bool(*b))), seq![], ty),
                    ]);
                }
                Some(r)
            },
            Expr::Literal(Literal::Int(l)) => match literal_i64(l.value) {
                Some(v) => {
                    let r = push_op(body, OpKind::Const(Attr::Int(v)), Vec::new(), ty);
                    proof {
                        assert(body_view(*body) =~= before + seq![
                            plain(KindView::Plain(OpKind::Const(Attr::Int(v))), seq![], ty),
                        ]);
                    }
                    Some(r)
                },
                None => None,
            },
            Expr::Literal(Literal::Float(f)) => {
                let r = push_op(body, OpKind::Const(Attr::Float(f.bits)), Vec::new(), ty);
                proof {
                    assert(body_view(*body) =~= before + seq![
                        plain(KindView::Plain(OpKind::Const(Attr::Float(f.bits))), seq![], ty),
                    ]);
                }
                Some(r)
            },
            Expr::Literal(Literal::String(_)) => None,
            Expr::Path { ident } => self.lower_path(id, body),
            Expr::UnaryOp { expr, op } => {
                let inner = match self.lower_expr(*expr, body) {
                    Some(i) => i,
                    None => return None,
                };
                let ghost mid = body_view(*body);
                proof {
                    crate::mir::lemma_body_view_len(*body);
                }
                let kind = match op {
                    UnaryOp::Neg => OpKind::Neg,
                    UnaryOp::Not => OpKind::Not,
                    UnaryOp::BitNot => OpKind::BitNot,
                };
                let rty = typed_result_of(&kind, ty);
                let operands = vec![inner];
                assert(operands@ =~= seq![inner]);
                let r = push_op(body, kind, operands, rty);
                proof {
                    let (ops, l) = lowered(c, old(self).locals_view(), *expr as nat, before.len()).unwrap();
                    assert(body_view(*body) =~= before + then_op(ops, before.len(), KindView::Plain(kind), rty));
                }
                Some(r)
            },
            _ => self.lower_compound(id, body),
        }
    }

    /// Lowers a path expression: a parameter, a generic parameter, or a
    /// `let` binding, whose initializer is lowered again here.
    fn lower_path(&mut self, id: usize, body: &mut Body) -> (r: Option<usize>)
        requires
            old(self).wf(),
            id < old(self).hir.exprs@.len(),
            old(self).hir.exprs@[id as int] is Path,
        ensures
            final(self).same_frame(*old(self)),
            final(self).ctx() == old(self).ctx(),
            final(self).wf(),
            lowering_result(
                old(self).ctx(),
                old(self).locals_view(),
                id as nat,
                body_view(*old(body)),
                body_view(*final(body)),
                final(self).locals_view(),
                r,
            ),
        decreases id, 0nat,
    {
        proof {
            crate::mir::lemma_ops_view_len(*body, body.ops@.len() as int);
        }
        let ghost before = body_view(*body);
        let ty = match ty_to_mir_type(self.types[id], self.pointer_bits) {
            Some(t) => t,
            None => MirType::Untyped,
        };
        let name = match &self.hir.exprs[id] {
            Expr::Path { ident: Some(n) } => n,
            _ => return None,
        };
        match find_last(&self.params, name.as_str()) {
            Some(i) => {
                let r = push_op(body, OpKind::Arg(i), Vec::new(), ty);
                proof {
                    assert(body_view(*body) =~= before + seq![
                        plain(KindView::Plain(OpKind::Arg(i)), seq![], ty),
                    ]);
                }
                return Some(r);
            },
            None => {},
        }
        if holds(&self.generics, name.as_str()) {
            let r = push_op(body, OpKind::ParamRef(name.clone()), Vec::new(), ty);
            proof {
                assert(body_view(*body) =~= before + seq![
                    plain(KindView::ParamRef(name@), seq![], ty),
                ]);
            }
            return Some(r);
        }
        match find_last(&self.locals, name.as_str()) {
            Some(init) => {
                if init < id {
                    self.lower_expr(init, body)
                } else {
                    None
                }
            },
            None => None,
        }
    }

    /// Lowers binary operators, casts, `if`, blocks and calls.
    fn lower_compound(&mut self, id: usize, body: &mut Body) -> (r: Option<usize>)
        requires
            old(self).wf(),
            id < old(self).hir.exprs@.len(),
        ensures
            final(self).same_frame(*old(self)),
            final(self).ctx() == old(self).ctx(),
            final(self).wf(),
            old(self).hir.exprs@[id as int] is BinaryOp || old(self).hir.exprs@[id as int] is Cast
                || old(self).hir.exprs@[id as int] is If || old(self).hir.exprs@[id as int] is Block
                || old(self).hir.exprs@[id as int] is Call || old(self).hir.exprs@[id as int] is Other
                ==> lowering_result(
                old(self).ctx(),
                old(self).locals_view(),
                id as nat,
                body_view(*old(body)),
                body_view(*final(body)),
                final(self).locals_view(),
                r,
            ),
        decreases id, 1nat,
    {
        match &self.hir.exprs[id] {
            Expr::BinaryOp { .. } => self.lower_binary(id, body),
            Expr::Cast { .. } => self.lower_cast(id, body),
            Expr::If { .. } => self.lower_if(id, body),
            Expr::Block { .. } => self.lower_block(id, body),
            Expr::Call { .. } => self.lower_call(id, body),
            _ => None,
        }
    }

    /// Lowers a binary operator over its two operands, left first.
    fn lower_binary(&mut self, id: usize, body: &mut Body) -> (r: Option<usize>)
        requires
            old(self).wf(),
            id < old(self).hir.exprs@.len(),
            old(self).hir.exprs@[id as int] is BinaryOp,
        ensures
            final(self).same_frame(*old(self)),
            final(self).ctx() == old(self).ctx(),
            final(self).wf(),
            lowering_result(
                old(self).ctx(),
                old(self).locals_view(),
                id as nat,
                body_view(*old(body)),
                body_view(*final(body)),
                final(self).locals_view(),
                r,
            ),
        decreases id, 0nat,
    {
        proof {
            crate::mir::lemma_body_view_len(*body);
            assert(operands_before(self.hir.exprs@[id as int], id as int));
        }
        let ghost c = self.ctx();
        let ghost l0 = self.locals_view();
        let ghost before = body_view(*body);
        let ty = match ty_to_mir_type(self.types[id], self.pointer_bits) {
            Some(t) => t,
            None => MirType::Untyped,
        };
        let (lhs, rhs, op) = match &self.hir.exprs[id] {
            Expr::BinaryOp { lhs, rhs, op: Some(op) } => (*lhs, *rhs, *op),
            _ => return None,
        };
        let l = match self.lower_expr(lhs, body) {
            Some(i) => i,
            None => return None,
        };
        let ghost mid = body_view(*body);
        let ghost l1 = self.locals_view();
        proof {
            crate::mir::lemma_body_view_len(*body);
        }
        let rr = match self.lower_expr(rhs, body) {
            Some(i) => i,
            None => return None,
        };
        proof {
            crate::mir::lemma_body_view_len(*body);
        }
        let kind = match binary_op_kind(op) {
            Some(k) => k,
            None => return None,
        };
        let rty = typed_result_of(&kind, ty);
        let operands = vec![l, rr];
        assert(operands@ =~= seq![l, rr]);
        let r = push_op(body, kind, operands, rty);
        proof {
            let (lops, _) = lowered(c, l0, lhs as nat, before.len()).unwrap();
            let (rops, _) = lowered(c, l1, rhs as nat, before.len() + lops.len()).unwrap();
            assert(mid == before + lops);
            let ops = lops + rops;
            assert(body_view(*body) =~= before + ops.push(
                plain(
                    KindView::Plain(kind),
                    seq![(before.len() + lops.len() - 1) as usize, (before.len() + ops.len() - 1) as usize],
                    rty,
                ),
            ));
        }
        Some(r)
    }

    /// Lowers `expr as Type` by the cast's legality and operation.
    fn lower_cast(&mut self, id: usize, body: &mut Body) -> (r: Option<usize>)
        requires
            old(self).wf(),
            id < old(self).hir.exprs@.len(),
            old(self).hir.exprs@[id as int] is Cast,
        ensures
            final(self).same_frame(*old(self)),
            final(self).ctx() == old(self).ctx(),
            final(self).wf(),
            lowering_result(
                old(self).ctx(),
                old(self).locals_view(),
                id as nat,
                body_view(*old(body)),
                body_view(*final(body)),
                final(self).locals_view(),
                r,
            ),
        decreases id, 0nat,
    {
        proof {
            crate::mir::lemma_body_view_len(*body);
            assert(operands_before(self.hir.exprs@[id as int], id as int));
        }
        let ghost c = self.ctx();
        let ghost l0 = self.locals_view();
        let ghost before = body_view(*body);
        let expr = match &self.hir.exprs[id] {
            Expr::Cast { expr } => *expr,
            _ => return None,
        };
        let source = self.types[expr];
        let target = self.types[id];
        let source_cast = match source {
            HirTy::Unit => CastType::Other,
            HirTy::Scalar(t) => t,
        };
        let target_cast = match target {
            HirTy::Unit => CastType::Other,
            HirTy::Scalar(t) => t,
        };
        match check_cast(source_cast, target_cast, self.pointer_bits) {
            CastCheck::Legal(CastOp::Identity) => self.lower_expr(expr, body),
            CastCheck::Legal(CastOp::Convert(kind, mode)) => {
                let target_ty = match ty_to_mir_type(target, self.pointer_bits) {
                    Some(t) => t,
                    None => return None,
                };
                let source_ty = match ty_to_mir_type(source, self.pointer_bits) {
                    Some(t) => t,
                    None => return None,
                };
                if source_ty == MirType::Bool {
                    return None;
                }
                let operand = match self.lower_expr(expr, body) {
                    Some(i) => i,
                    None => return None,
                };
                proof {
                    crate::mir::lemma_body_view_len(*body);
                }
                let operands = vec![operand];
                assert(operands@ =~= seq![operand]);
                let r = push_op(body, OpKind::Cast(kind, mode), operands, target_ty);
                proof {
                    let (ops, _) = lowered(c, l0, expr as nat, before.len()).unwrap();
                    assert(body_view(*body) =~= before + then_op(
                        ops,
                        before.len(),
                        KindView::Plain(OpKind::Cast(kind, mode)),
                        target_ty,
                    ));
                }
                Some(r)
            },
            _ => None,
        }
    }

    /// Lowers `if`: the condition into the body, each branch into a body
    /// of its own.
    fn lower_if(&mut self, id: usize, body: &mut Body) -> (r: Option<usize>)
        requires
            old(self).wf(),
            id < old(self).hir.exprs@.len(),
            old(self).hir.exprs@[id as int] is If,
        ensures
            final(self).same_frame(*old(self)),
            final(self).ctx() == old(self).ctx(),
            final(self).wf(),
            lowering_result(
                old(self).ctx(),
                old(self).locals_view(),
                id as nat,
                body_view(*old(body)),
                body_view(*final(body)),
                final(self).locals_view(),
                r,
            ),
        decreases id, 0nat,
    {
        proof {
            crate::mir::lemma_body_view_len(*body);
            assert(operands_before(self.hir.exprs@[id as int], id as int));
        }
        let ghost c = self.ctx();
        let ghost l0 = self.locals_view();
        let ghost before = body_view(*body);
        let ty = match ty_to_mir_type(self.types[id], self.pointer_bits) {
            Some(t) => t,
            None => MirType::Untyped,
        };
        let (condition, then_branch, else_branch) = match &self.hir.exprs[id] {
            Expr::If { condition, then_branch, else_branch } => (*condition, *then_branch, *else_branch),
            _ => return None,
        };
        let cond = match self.lower_expr(condition, body) {
            Some(i) => i,
            None => return None,
        };
        proof {
            crate::mir::lemma_body_view_len(*body);
        }
        let ghost l1 = self.locals_view();
        let mut then_body = empty_body();
        match self.lower_expr(then_branch, &mut then_body) {
            Some(_) => {},
            None => return None,
        }
        let ghost l2 = self.locals_view();
        let mut else_body = empty_body();
        match else_branch {
            Some(e) => match self.lower_expr(e, &mut else_body) {
                Some(_) => {},
                None => return None,
            },
            None => {},
        }
        let ghost tv = body_view(then_body);
        let ghost ev = body_view(else_body);
        let r = push_if(body, cond, then_body, else_body, ty);
        proof {
            let (cops, _) = lowered(c, l0, condition as nat, before.len()).unwrap();
            let (tops, _) = lowered(c, l1, then_branch as nat, 0).unwrap();
            assert(Seq::<OpView>::empty() + tops =~= tops);
            match else_branch {
                Some(e) => {
                    let (eops, _) = lowered(c, l2, e as nat, 0).unwrap();
                    assert(Seq::<OpView>::empty() + eops =~= eops);
                },
                None => {},
            }
            assert(body_view(*body) =~= before + cops.push(
                OpView {
                    kind: KindView::Plain(OpKind::If),
                    operands: seq![(before.len() + cops.len() - 1) as usize],
                    regions: seq![tv, ev],
                    ty,
                },
            ));
        }
        Some(r)
    }

    /// Lowers a block: each `let` binds its initializer, checked once on
    /// its own; the block's value is its tail's, or unit.
    fn lower_block(&mut self, id: usize, body: &mut Body) -> (r: Option<usize>)
        requires
            old(self).wf(),
            id < old(self).hir.exprs@.len(),
            old(self).hir.exprs@[id as int] is Block,
        ensures
            final(self).same_frame(*old(self)),
            final(self).ctx() == old(self).ctx(),
            final(self).wf(),
            lowering_result(
                old(self).ctx(),
                old(self).locals_view(),
                id as nat,
                body_view(*old(body)),
                body_view(*final(body)),
                final(self).locals_view(),
                r,
            ),
        decreases id, 0nat,
    {
        proof {
            crate::mir::lemma_body_view_len(*body);
            assert(operands_before(self.hir.exprs@[id as int], id as int));
            assert(let_pats_ok(self.hir.exprs@[id as int], self.hir.pats@.len()));
        }
        let ghost c = self.ctx();
        let ghost l0 = self.locals_view();
        let ghost before = body_view(*body);
        let hir = self.hir;
        let (statements, tail) = match &hir.exprs[id] {
            Expr::Block { statements, tail } => (statements, *tail),
            _ => return None,
        };
        let mut k: usize = 0;
        while k < statements.len()
            invariant
                0 <= k <= statements@.len(),
                self.ctx() == c,
                self.wf(),
                self.hir == hir,
                self.same_frame(*old(self)),
                c == old(self).ctx(),
                l0 == old(self).locals_view(),
                before == body_view(*old(body)),
                hir.exprs@[id as int] == (Expr::Block { statements: *statements, tail }),
                id < hir.exprs@.len(),
                operands_before(hir.exprs@[id as int], id as int),
                let_pats_ok(hir.exprs@[id as int], hir.pats@.len()),
                block_scope(c, l0, id as nat, k as nat) == Some(self.locals_view()),
                body_view(*body) == before,
            decreases statements@.len() - k,
        {
            proof {
                assert(statement_before(statements@[k as int], id as int));
            }
            match &statements[k] {
                Statement::Let { pat, initializer: Some(init) } => {
                    let ghost lk = self.locals_view();
                    let mut probe = empty_body();
                    match self.lower_expr(*init, &mut probe) {
                        Some(_) => {},
                        None => {
                            proof {
                                lemma_block_fail(c, l0, id as nat, (k + 1) as nat, statements@.len() as nat);
                            }
                            return None;
                        },
                    }
                    let ghost lprobe = self.locals@;
                    match &hir.pats[*pat] {
                        Pat::Bind { name } => {
                            let bound = name.clone();
                            self.locals.push((bound, *init));
                            proof {
                                assert(self.locals@ == lprobe.push((bound, *init)));
                                assert(entries_view(self.locals@) =~= entries_view(lprobe).push((name@, *init)));
                            }
                        },
                        Pat::Other => {
                            proof {
                                lemma_block_fail(c, l0, id as nat, (k + 1) as nat, statements@.len() as nat);
                            }
                            return None;
                        },
                    }
                    proof {
                        let (_, l2) = lowered(c, lk, *init as nat, 0).unwrap();
                        assert(self.locals_view() =~= l2.push((hir.pats@[*pat as int]->Bind_name@, *init)));
                    }
                },
                _ => {
                    proof {
                        lemma_block_fail(c, l0, id as nat, (k + 1) as nat, statements@.len() as nat);
                    }
                    return None;
                },
            }
            k = k + 1;
        }
        match tail {
            Some(t) => self.lower_expr(t, body),
            None => {
                let r = push_op(body, OpKind::Const(Attr::Unit), Vec::new(), MirType::Unit);
                proof {
                    assert(body_view(*body) =~= before + seq![
                        plain(KindView::Plain(OpKind::Const(Attr::Unit)), seq![], MirType::Unit),
                    ]);
                }
                Some(r)
            },
        }
    }

    /// Lowers a call of a plain named function: the arguments in order,
    /// then the call by the callee's name.
    fn lower_call(&mut self, id: usize, body: &mut Body) -> (r: Option<usize>)
        requires
            old(self).wf(),
            id < old(self).hir.exprs@.len(),
            old(self).hir.exprs@[id as int] is Call,
        ensures
            final(self).same_frame(*old(self)),
            final(self).ctx() == old(self).ctx(),
            final(self).wf(),
            lowering_result(
                old(self).ctx(),
                old(self).locals_view(),
                id as nat,
                body_view(*old(body)),
                body_view(*final(body)),
                final(self).locals_view(),
                r,
            ),
        decreases id, 0nat,
    {
        proof {
            crate::mir::lemma_body_view_len(*body);
            assert(operands_before(self.hir.exprs@[id as int], id as int));
        }
        let ghost c = self.ctx();
        let ghost l0 = self.locals_view();
        let ghost before = body_view(*body);
        let ty = match ty_to_mir_type(self.types[id], self.pointer_bits) {
            Some(t) => t,
            None => MirType::Untyped,
        };
        let hir = self.hir;
        let (callee, args) = match &hir.exprs[id] {
            Expr::Call { callee, args } => (*callee, args),
            _ => return None,
        };
        let name = match &hir.exprs[callee] {
            Expr::Path { ident: Some(n) } => n,
            _ => return None,
        };
        if find_last(&self.params, name.as_str()).is_some() || holds(&self.generics, name.as_str())
            || find_last(&self.locals, name.as_str()).is_some() {
            return None;
        }
        let mut arg_ids: Vec<usize> = Vec::new();
        let mut k: usize = 0;
        while k < args.len()
            invariant
                0 <= k <= args@.len(),
                self.ctx() == c,
                self.wf(),
                self.hir == hir,
                self.same_frame(*old(self)),
                c == old(self).ctx(),
                l0 == old(self).locals_view(),
                before == body_view(*old(body)),
                hir.exprs@[id as int] == (Expr::Call { callee, args: *args }),
                id < hir.exprs@.len(),
                operands_before(hir.exprs@[id as int], id as int),
                before.len() == old(body).ops@.len(),
                lowered_args(c, l0, id as nat, k as nat, before.len()) matches Some((ops, ids, l)) && body_view(*body)
                    == before + ops && arg_ids@ == ids && self.locals_view() == l,
            decreases args@.len() - k,
        {
            proof {
                assert(args@[k as int] < id);
                crate::mir::lemma_body_view_len(*body);
            }
            let a = args[k];
            let ghost prev = body_view(*body);
            let ghost lk = self.locals_view();
            let ai = match self.lower_expr(a, body) {
                Some(i) => i,
                None => {
                    proof {
                        lemma_args_fail(c, l0, id as nat, (k + 1) as nat, args@.len() as nat, before.len());
                    }
                    return None;
                },
            };
            arg_ids.push(ai);
            proof {
                let (ops, ids, _) = lowered_args(c, l0, id as nat, k as nat, before.len()).unwrap();
                let (aops, _) = lowered(c, lk, a as nat, before.len() + ops.len()).unwrap();
                assert(prev == before + ops);
                assert(body_view(*body) =~= before + (ops + aops));
                assert(arg_ids@ =~= ids.push((before.len() + ops.len() + aops.len() - 1) as usize));
            }
            k = k + 1;
        }
        proof {
            crate::mir::lemma_body_view_len(*body);
        }
        let symbol = name.clone();
        let ghost ids = arg_ids@;
        let r = push_op(body, OpKind::Call(symbol), arg_ids, ty);
        proof {
            let (ops, _, _) = lowered_args(c, l0, id as nat, args@.len() as nat, before.len()).unwrap();
            assert(body_view(*body) =~= before + ops.push(plain(KindView::Call(name@), ids, ty)));
        }
        Some(r)
    }
}


/// The parameters of a body by name, each with its position, for the first
/// `k` parameter patterns; a parameter whose pattern is not a plain name
/// has no entry.
pub open spec fn param_entries(pats: Seq<Pat>, params: Seq<usize>, k: nat) -> Seq<(Seq<char>, u32)>
    decreases k,
{
    if k == 0 {
        Seq::empty()
    } else {
        let prev = param_entries(pats, params, (k - 1) as nat);
        match pats[params[k - 1] as int] {
            Pat::Bind { name } => prev.push((name@, (k - 1) as u32)),
            Pat::Other => prev,
        }
    }
}

/// What lowering a function reads: its body, the types, the target's
/// pointer width, its parameters by name, and its generic parameters.
pub open spec fn function_ctx(
    hir: HirBody,
    types: Seq<HirTy>,
    pointer_bits: u32,
    generic_params: Seq<String>,
) -> Ctx {
    Ctx {
        exprs: hir.exprs@,
        pats: hir.pats@,
        types,
        pointer_bits,
        params: param_entries(hir.pats@, hir.params@, hir.params@.len()),
        generics: names_view(generic_params),
    }
}

/// Lowers the body of function `name` with generic parameters
/// `generic_params` to a generator whose parameters are the generic
/// parameters, in order; `None` when the body uses a construct outside the
/// lowered subset.
pub fn lower_function_to_generator(
    name: &str,
    generic_params: &Vec<String>,
    hir: &HirBody,
    types: &Vec<HirTy>,
    pointer_bits: u32,
) -> (r: Option<Generator>)
    requires
        body_ok(*hir, types@),
        hir.params@.len() <= u32::MAX,
    ensures
        match lowered(function_ctx(*hir, types@, pointer_bits, generic_params@), Seq::empty(), hir.body_expr as nat, 0) {
            Some((ops, _)) => r matches Some(g) && {
                &&& g.name@ == name@
                &&& g.params@.len() == generic_params@.len()
                &&& forall|k: int| 0 <= k < g.params@.len() ==> #[trigger] g.params@[k].name@ == generic_params@[k]@
                &&& body_view(g.body) == ops
                &&& well_formed_ops(body_view(g.body), 0)
            },
            None => r is None,
        },
{
    let mut params: Vec<(String, u32)> = Vec::new();
    let mut k: usize = 0;
    while k < hir.params.len()
        invariant
            0 <= k <= hir.params@.len(),
            hir.params@.len() <= u32::MAX,
            body_ok(*hir, types@),
            entries_view(params@) == param_entries(hir.pats@, hir.params@, k as nat),
        decreases hir.params@.len() - k,
    {
        let ghost prev = params@;
        proof {
            assert(hir.params@[k as int] < hir.pats@.len());
        }
        match &hir.pats[hir.params[k]] {
            Pat::Bind { name } => {
                params.push((name.clone(), k as u32));
                proof {
                    assert(entries_view(params@) =~= entries_view(prev).push((name@, k as u32)));
                }
            },
            Pat::Other => {},
        }
        k = k + 1;
    }
    let mut generics: Vec<String> = Vec::new();
    let mut gparams: Vec<GeneratorParam> = Vec::new();
    let mut j: usize = 0;
    while j < generic_params.len()
        invariant
            0 <= j <= generic_params@.len(),
            generics@.len() == j,
            gparams@.len() == j,
            forall|i: int| 0 <= i < j ==> #[trigger] generics@[i]@ == generic_params@[i]@,
            forall|i: int| 0 <= i < j ==> #[trigger] gparams@[i].name@ == generic_params@[i]@,
        decreases generic_params@.len() - j,
    {
        generics.push(generic_params[j].clone());
        gparams.push(GeneratorParam { name: generic_params[j].clone() });
        j = j + 1;
    }
    proof {
        assert(names_view(generics@) =~= names_view(generic_params@));
    }
    let mut lowerer = Lowerer { hir, types, pointer_bits, params, generics, locals: Vec::new() };
    proof {
        assert(lowerer.ctx() == function_ctx(*hir, types@, pointer_bits, generic_params@));
        assert(lowerer.locals_view() =~= Seq::<(Seq<char>, usize)>::empty());
    }
    let mut body = empty_body();
    match lowerer.lower_expr(hir.body_expr, &mut body) {
        Some(_) => {
            let name_text = name.to_string();
            proof {
                assert(body_view(body) =~= lowered(lowerer.ctx(), Seq::empty(), hir.body_expr as nat, 0).unwrap().0);
                lemma_lowered_wf(lowerer.ctx(), Seq::empty(), hir.body_expr as nat, 0);
            }
            Some(Generator { name: name_text, params: gparams, body })
        },
        None => None,
    }
}

} // verus!

//! The operation bodies that compile-time evaluation and elaboration
//! consume: straight-line lists of typed operations, each naming its
//! operands by their position in the same body, with `if` carrying its two
//! branches as nested bodies.
use crate::cast::{CastKind, CastMode};
use vstd::prelude::*;

verus! {

/// A constant operand.
#[derive(Debug, Clone, Copy, PartialEq, Eq, Structural)]
pub enum Attr {
    Bool(bool),
    Int(i64),
    /// An `f64` by its bit pattern.
    Float(u64),
    Unit,
}

/// The machine type of an operation's result.
#[derive(Debug, Clone, Copy, PartialEq, Eq, Structural)]
pub enum MirType {
    /// No type is claimed; the type checker skips the operation.
    Untyped,
    Bool,
    Unit,
    Int { width: u32, signed: bool },
    Float { width: u32 },
}

impl MirType {
    /// An integer or float type.
    pub open spec fn is_arithmetic(self) -> bool {
        self is Int || self is Float
    }

    /// An integer type.
    pub open spec fn is_int(self) -> bool {
        self is Int
    }
}

/// The kind of an operation.
#[derive(Debug, Clone, PartialEq, Eq)]
pub enum OpKind {
    Const(Attr),
    /// The function argument at this position.
    Arg(u32),
    /// The generic parameter of this name, bound at elaboration.
    ParamRef(String),
    Neg,
    Not,
    BitNot,
    Add,
    Sub,
    Mul,
    Div,
    Rem,
    Shl,
    Shr,
    BitAnd,
    BitOr,
    BitXor,
    And,
    Or,
    Eq,
    Ne,
    Lt,
    Le,
    Gt,
    Ge,
    Cast(CastKind, CastMode),
    /// Takes the condition as operand and the then/else bodies as regions.
    If,
    /// A call of the function of this name, resolved at evaluation.
    Call(String),
}

/// One operation: its operands are positions of earlier operations of the
/// same body.
#[derive(Debug, PartialEq, Eq)]
pub struct Op {
    pub kind: OpKind,
    pub operands: Vec<usize>,
    pub regions: Vec<Body>,
    pub ty: MirType,
}

/// A straight-line body of operations; the last one is its result.
#[derive(Debug, PartialEq, Eq)]
pub struct Body {
    pub ops: Vec<Op>,
}

/// A parameter of a generator, bound to a value when it is elaborated.
#[derive(Debug, PartialEq, Eq)]
pub struct GeneratorParam {
    pub name: String,
}

/// A named body with the parameters that elaboration binds.
#[derive(Debug, PartialEq, Eq)]
pub struct Generator {
    pub name: String,
    pub params: Vec<GeneratorParam>,
    pub body: Body,
}

/// An operation kind, names by their text.
pub enum KindView {
    /// A kind without a name.
    Plain(OpKind),
    ParamRef(Seq<char>),
    Call(Seq<char>),
}

/// An operation as a value: kind, operands, the bodies of its regions, and
/// type.
pub struct OpView {
    pub kind: KindView,
    pub operands: Seq<usize>,
    pub regions: Seq<Seq<OpView>>,
    pub ty: MirType,
}

/// Every operand of operation `o`, placed at position `pos`, names an
/// earlier operation, and the bodies of its regions are well formed.
pub open spec fn op_well_formed(o: OpView, pos: int) -> bool
    decreases o,
{
    &&& forall|j: int| 0 <= j < o.operands.len() ==> #[trigger] o.operands[j] < pos
    &&& forall|r: int|
        0 <= r < o.regions.len() ==> {
            proof {
                assert(decreases_to!(o => o.regions));
                assert(decreases_to!(o.regions => o.regions[r]));
            }
            #[trigger] well_formed_ops(o.regions[r], 0)
        }
}

/// Every operation placed at `base` onwards refers only to earlier
/// operations of its own body, and so does every operation inside each
/// operation's regions, whose bodies start afresh at position zero.
pub open spec fn well_formed_ops(ops: Seq<OpView>, base: int) -> bool
    decreases ops,
{
    forall|i: int|
        #![trigger ops[i]]
        0 <= i < ops.len() ==> {
            proof {
                assert(decreases_to!(ops => ops[i]));
            }
            op_well_formed(ops[i], base + i)
        }
}

/// The kind by its texts.
pub open spec fn kind_view(k: OpKind) -> KindView {
    match k {
        OpKind::ParamRef(s) => KindView::ParamRef(s@),
        OpKind::Call(s) => KindView::Call(s@),
        _ => KindView::Plain(k),
    }
}

/// An operation as a value.
pub open spec fn op_view(o: Op) -> OpView
    decreases o, o.regions@.len() + 1,
{
    OpView {
        kind: kind_view(o.kind),
        operands: o.operands@,
        regions: regions_view(o, o.regions@.len() as int),
        ty: o.ty,
    }
}

/// The first `k` regions of an operation, as values.
pub open spec fn regions_view(o: Op, k: int) -> Seq<Seq<OpView>>
    decreases o, k,
{
    if k <= 0 || k > o.regions@.len() {
        Seq::empty()
    } else {
        let r = o.regions@[k - 1];
        proof {
            assert(decreases_to!(o => o.regions));
            assert(decreases_to!(o.regions => o.regions@));
            assert(decreases_to!(o.regions@ => o.regions@[k - 1]));
        }
        regions_view(o, k - 1).push(ops_view(r, r.ops@.len() as int))
    }
}

/// The first `k` operations of a body, as values.
pub open spec fn ops_view(b: Body, k: int) -> Seq<OpView>
    decreases b, k,
{
    if k <= 0 || k > b.ops@.len() {
        Seq::empty()
    } else {
        proof {
            assert(decreases_to!(b => b.ops));
            assert(decreases_to!(b.ops => b.ops@));
            assert(decreases_to!(b.ops@ => b.ops@[k - 1]));
        }
        ops_view(b, k - 1).push(op_view(b.ops@[k - 1]))
    }
}

/// A body as a sequence of operation values.
pub open spec fn body_view(b: Body) -> Seq<OpView> {
    ops_view(b, b.ops@.len() as int)
}

/// A body's view is one entry per operation.
pub proof fn lemma_ops_view_len(b: Body, k: int)
    requires
        0 <= k <= b.ops@.len(),
    ensures
        ops_view(b, k).len() == k,
        forall|i: int| 0 <= i < k ==> #[trigger] ops_view(b, k)[i] == op_view(b.ops@[i]),
    decreases k,
{
    if k > 0 {
        lemma_ops_view_len(b, k - 1);
        assert forall|i: int| 0 <= i < k implies #[trigger] ops_view(b, k)[i] == op_view(b.ops@[i]) by {
            if i < k - 1 {
                assert(ops_view(b, k)[i] == ops_view(b, k - 1)[i]);
            }
        }
    }
}

/// A body's view has one entry per operation.
pub proof fn lemma_body_view_len(b: Body)
    ensures
        body_view(b).len() == b.ops@.len(),
{
    lemma_ops_view_len(b, b.ops@.len() as int);
}

/// Appending an operation appends its view.
pub proof fn lemma_body_view_push(before: Body, after: Body, o: Op)
    requires
        after.ops@ == before.ops@.push(o),
    ensures
        body_view(after) == body_view(before).push(op_view(o)),
{
    lemma_ops_view_len(before, before.ops@.len() as int);
    lemma_ops_view_len(after, after.ops@.len() as int);
    assert(body_view(after) =~= body_view(before).push(op_view(o)));
}

/// An empty body.
pub fn empty_body() -> (b: Body)
    ensures
        b.ops@.len() == 0,
        body_view(b) == Seq::<OpView>::empty(),
{
    Body { ops: Vec::new() }
}

/// Appends an operation without regions and returns its position.
pub fn push_op(body: &mut Body, kind: OpKind, operands: Vec<usize>, ty: MirType) -> (r: usize)
    ensures
        r == old(body).ops@.len(),
        final(body).ops@.len() == old(body).ops@.len() + 1,
        forall|k: int| 0 <= k < old(body).ops@.len() ==> final(body).ops@[k] == old(body).ops@[k],
        final(body).ops@[r as int].kind == kind,
        final(body).ops@[r as int].operands@ == operands@,
        final(body).ops@[r as int].regions@.len() == 0,
        final(body).ops@[r as int].ty == ty,
        body_view(*final(body)) == body_view(*old(body)).push(
            OpView { kind: kind_view(kind), operands: operands@, regions: Seq::empty(), ty },
        ),
{
    let r = body.ops.len();
    let ghost before = *body;
    let o = Op { kind, operands, regions: Vec::new(), ty };
    proof {
        assert(regions_view(o, 0) =~= Seq::<Seq<OpView>>::empty());
    }
    body.ops.push(o);
    proof {
        lemma_body_view_push(before, *body, o);
    }
    r
}

/// Appends an `if` over condition `cond` with the given branches and
/// returns its position.
pub fn push_if(body: &mut Body, cond: usize, then_body: Body, else_body: Body, ty: MirType) -> (r:
    usize)
    ensures
        r == old(body).ops@.len(),
        final(body).ops@.len() == old(body).ops@.len() + 1,
        body_view(*final(body)) == body_view(*old(body)).push(
            OpView {
                kind: KindView::Plain(OpKind::If),
                operands: seq![cond],
                regions: seq![body_view(then_body), body_view(else_body)],
                ty,
            },
        ),
{
    let r = body.ops.len();
    let ghost before = *body;
    let ghost t = then_body;
    let ghost e = else_body;
    let operands = vec![cond];
    let regions = vec![then_body, else_body];
    let o = Op { kind: OpKind::If, operands, regions, ty };
    proof {
        assert(o.operands@ =~= seq![cond]);
        assert(o.regions@[0] == t);
        assert(o.regions@[1] == e);
        assert(o.regions@.len() == 2);
        assert(regions_view(o, 0) =~= Seq::<Seq<OpView>>::empty());
        assert(regions_view(o, 1) =~= seq![body_view(t)]);
        assert(regions_view(o, 2) =~= seq![body_view(t), body_view(e)]);
    }
    body.ops.push(o);
    proof {
        lemma_body_view_push(before, *body, o);
    }
    r
}


/// What an integer operation computes from its two operands; `None` for
/// an operation that is not an integer arithmetic one.
pub open spec fn op_int_value(k: OpKind, x: int, y: int) -> Option<int> {
    match k {
        OpKind::Add => Some(x + y),
        OpKind::Sub => Some(x - y),
        OpKind::Mul => Some(x * y),
        OpKind::Div => Some(x / y),
        OpKind::Rem => Some(x % y),
        _ => None,
    }
}

/// What a bitwise or shift operation computes from two words; `None` for
/// any other operation.
pub open spec fn op_bits_value(k: OpKind, x: u64, y: u64) -> Option<u64> {
    match k {
        OpKind::BitAnd => Some(x & y),
        OpKind::BitOr => Some(x | y),
        OpKind::BitXor => Some(x ^ y),
        OpKind::Shl => Some(x << y),
        OpKind::Shr => Some(x >> y),
        _ => None,
    }
}

/// What a comparison operation answers on two integers; `None` for any
/// other operation.
pub open spec fn op_cmp_value(k: OpKind, x: int, y: int) -> Option<bool> {
    match k {
        OpKind::Eq => Some(x == y),
        OpKind::Ne => Some(x != y),
        OpKind::Lt => Some(x < y),
        OpKind::Le => Some(x <= y),
        OpKind::Gt => Some(x > y),
        OpKind::Ge => Some(x >= y),
        _ => None,
    }
}

/// What a logical operation answers on two booleans; `None` for any other
/// operation.
pub open spec fn op_logic_value(k: OpKind, p: bool, q: bool) -> Option<bool> {
    match k {
        OpKind::And => Some(p && q),
        OpKind::Or => Some(p || q),
        _ => None,
    }
}

} // verus!

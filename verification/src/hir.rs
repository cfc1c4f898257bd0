//! The lowered form of function bodies that compile-time evaluation and
//! lowering read: expressions in an arena (a `Vec`, addressed by position)
//! in which every expression is allocated after its operands, statements,
//! and binding patterns. Float literals are carried by their IEEE-754 bit
//! patterns.
use vstd::prelude::*;

verus! {

/// An arithmetic or bitwise binary operator.
#[derive(Debug, Clone, Copy, PartialEq, Eq, Structural)]
pub enum ArithOp {
    Add,
    Subtract,
    Multiply,
    Divide,
    Remainder,
    LeftShift,
    RightShift,
    BitAnd,
    BitOr,
    BitXor,
}

/// A short-circuiting logical operator.
#[derive(Debug, Clone, Copy, PartialEq, Eq, Structural)]
pub enum LogicOp {
    And,
    Or,
}

/// The side an ordering comparison tests for.
#[derive(Debug, Clone, Copy, PartialEq, Eq, Structural)]
pub enum Direction {
    Less,
    Greater,
}

/// A comparison operator: `==`/`!=`, or `<`, `<=`, `>`, `>=`.
#[derive(Debug, Clone, Copy, PartialEq, Eq, Structural)]
pub enum CmpOp {
    Eq { negated: bool },
    Ord { direction: Direction, strict: bool },
}

/// A binary operator as written.
#[derive(Debug, Clone, Copy, PartialEq, Eq, Structural)]
pub enum BinaryOp {
    ArithOp(ArithOp),
    LogicOp(LogicOp),
    CmpOp(CmpOp),
    /// `=` or a compound assignment such as `+=`.
    Assignment { op: Option<ArithOp> },
}

/// A unary operator.
#[derive(Debug, Clone, Copy, PartialEq, Eq, Structural)]
pub enum UnaryOp {
    Neg,
    Not,
    BitNot,
}

/// How an integer literal is written.
#[derive(Debug, Clone, Copy, PartialEq, Eq, Structural)]
pub enum LiteralIntKind {
    Unsuffixed,
    Suffixed,
}

/// How a float literal is written.
#[derive(Debug, Clone, Copy, PartialEq, Eq, Structural)]
pub enum LiteralFloatKind {
    Unsuffixed,
    Suffixed,
}

/// An integer literal; source literals are unsigned.
#[derive(Debug, Clone, Copy, PartialEq, Eq, Structural)]
pub struct LiteralInt {
    pub kind: LiteralIntKind,
    pub value: u128,
}

/// A float literal, by the bit pattern of its `f64` value.
#[derive(Debug, Clone, Copy, PartialEq, Eq, Structural)]
pub struct LiteralFloat {
    pub kind: LiteralFloatKind,
    pub bits: u64,
}

/// A literal.
#[derive(Debug, PartialEq, Eq)]
pub enum Literal {
    Bool(bool),
    Int(LiteralInt),
    Float(LiteralFloat),
    String(String),
}

/// A binding pattern.
#[derive(Debug, PartialEq, Eq)]
pub enum Pat {
    /// A plain name.
    Bind { name: String },
    /// Any other pattern.
    Other,
}

/// A statement of a block; `pat` is a position among the patterns.
#[derive(Debug, PartialEq, Eq)]
pub enum Statement {
    Let { pat: usize, initializer: Option<usize> },
    Expr(usize),
}

/// An expression of a lowered body; operands are arena positions.
#[derive(Debug, PartialEq, Eq)]
pub enum Expr {
    Literal(Literal),
    /// A path; `ident` is its name when it is a single identifier.
    Path { ident: Option<String> },
    UnaryOp { expr: usize, op: UnaryOp },
    /// `op` is `None` where the operator did not parse.
    BinaryOp { lhs: usize, rhs: usize, op: Option<BinaryOp> },
    /// `expr as Type`; the target type is the cast expression's own type.
    Cast { expr: usize },
    If { condition: usize, then_branch: usize, else_branch: Option<usize> },
    Block { statements: Vec<Statement>, tail: Option<usize> },
    Call { callee: usize, args: Vec<usize> },
    /// Any other expression: method calls, indexing, arrays, record
    /// literals, fields, loops, `return`, `break`, missing.
    Other,
}

/// The operands of statement `s` are allocated before position `i`.
pub open spec fn statement_before(s: Statement, i: int) -> bool {
    match s {
        Statement::Let { initializer: Some(init), .. } => init < i,
        Statement::Let { initializer: None, .. } => true,
        Statement::Expr(e) => e < i,
    }
}

/// The operands of expression `i` are allocated before it.
pub open spec fn operands_before(e: Expr, i: int) -> bool {
    match e {
        Expr::UnaryOp { expr, .. } => expr < i,
        Expr::BinaryOp { lhs, rhs, .. } => lhs < i && rhs < i,
        Expr::Cast { expr } => expr < i,
        Expr::If { condition, then_branch, else_branch } => condition < i && then_branch < i && (
        match else_branch {
            Some(e) => e < i,
            None => true,
        }),
        Expr::Block { statements, tail } => (forall|k: int|
            0 <= k < statements@.len() ==> #[trigger] statement_before(statements@[k], i)) && (
        match tail {
            Some(t) => t < i,
            None => true,
        }),
        Expr::Call { callee, args } => callee < i && forall|k: int|
            0 <= k < args@.len() ==> #[trigger] args@[k] < i,
        _ => true,
    }
}

/// Every expression of the arena comes after its operands, as lowering
/// allocates them.
pub open spec fn arena_ordered(exprs: Seq<Expr>) -> bool {
    forall|i: int| 0 <= i < exprs.len() ==> #[trigger] operands_before(exprs[i], i)
}


/// What an arithmetic operator means on two integers: `+ - * / %`; `None`
/// for the bitwise and shift operators.
pub open spec fn arith_meaning(a: ArithOp, x: int, y: int) -> Option<int> {
    match a {
        ArithOp::Add => Some(x + y),
        ArithOp::Subtract => Some(x - y),
        ArithOp::Multiply => Some(x * y),
        ArithOp::Divide => Some(x / y),
        ArithOp::Remainder => Some(x % y),
        _ => None,
    }
}

/// What a bitwise or shift operator means on two words: `& | ^ << >>`;
/// `None` for the arithmetic operators.
pub open spec fn bits_meaning(a: ArithOp, x: u64, y: u64) -> Option<u64> {
    match a {
        ArithOp::BitAnd => Some(x & y),
        ArithOp::BitOr => Some(x | y),
        ArithOp::BitXor => Some(x ^ y),
        ArithOp::LeftShift => Some(x << y),
        ArithOp::RightShift => Some(x >> y),
        _ => None,
    }
}

/// What a comparison operator answers on two integers.
pub open spec fn cmp_meaning(c: CmpOp, x: int, y: int) -> bool {
    match c {
        CmpOp::Eq { negated } => (x == y) != negated,
        CmpOp::Ord { direction: Direction::Less, strict } => if strict {
            x < y
        } else {
            x <= y
        },
        CmpOp::Ord { direction: Direction::Greater, strict } => if strict {
            x > y
        } else {
            x >= y
        },
    }
}

/// What a logical operator answers on two booleans.
pub open spec fn logic_meaning(l: LogicOp, p: bool, q: bool) -> bool {
    match l {
        LogicOp::And => p && q,
        LogicOp::Or => p || q,
    }
}

} // verus!

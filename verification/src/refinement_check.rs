//! Refinement predicates: the restricted subset a refinement type's
//! predicate is checked in, lowered to a sorted term tree over the
//! refinement's one binder, and the verdict once a solver has judged the
//! term satisfiable or not.
//!
//! The subset: integer and boolean literals, the binder by name, `+ - *`,
//! `< <= > >= ==`, `&&` and `||`, prefix `-` and `!`, and parentheses. Any
//! other construct, or an operator applied to operands of the wrong sort,
//! leaves the predicate unchecked.
use vstd::prelude::*;
use crate::heal_attributes::{digits_value, is_digit, lemma_digits_monotone, lemma_digits_nonnegative};

verus! {

/// What checking a refinement predicate found.
#[derive(Debug, Clone, Copy, PartialEq, Eq, Structural)]
pub enum RefinementCheckResult {
    /// The predicate is satisfiable, or the solver could not decide, which
    /// is not reported.
    Satisfiable,
    /// The predicate is provably unsatisfiable: the type has no
    /// inhabitants.
    Unsatisfiable,
    /// The predicate uses a construct outside the checked subset.
    NotChecked,
}


/// A prefix operator as parsed.
#[derive(Debug, Clone, Copy, PartialEq, Eq, Structural)]
pub enum PrefixOp {
    Not,
    Neg,
    Other,
}

/// A binary operator as parsed.
#[derive(Debug, Clone, Copy, PartialEq, Eq, Structural)]
pub enum BinOp {
    Add,
    Subtract,
    Multiply,
    Less,
    LessEqual,
    Greater,
    GreatEqual,
    Equals,
    BooleanAnd,
    BooleanOr,
    Other,
}

/// A predicate expression as the parser gives it; parts that did not parse
/// are absent.
#[derive(Debug)]
pub enum PredExpr {
    /// An integer literal: its text without the type suffix.
    Int { text: String },
    /// `true` or `false`.
    Bool(bool),
    /// Any other literal.
    OtherLiteral,
    /// A path, by its segment's name when that is a plain name.
    Path { name: Option<String> },
    /// `(e)`.
    Paren(Option<Box<PredExpr>>),
    /// A prefix operator applied to an operand.
    Prefix { op: Option<PrefixOp>, expr: Option<Box<PredExpr>> },
    /// A binary operator applied to two operands.
    Bin { op: Option<BinOp>, lhs: Option<Box<PredExpr>>, rhs: Option<Box<PredExpr>> },
    /// Any other expression.
    Other,
}

/// A term over the binder, for a solver.
#[derive(Debug, PartialEq, Eq)]
pub enum Term {
    IntLit(i64),
    BoolLit(bool),
    /// The refinement's binder, an integer.
    Binder,
    Add(Box<Term>, Box<Term>),
    Sub(Box<Term>, Box<Term>),
    Mul(Box<Term>, Box<Term>),
    Lt(Box<Term>, Box<Term>),
    Le(Box<Term>, Box<Term>),
    Gt(Box<Term>, Box<Term>),
    Ge(Box<Term>, Box<Term>),
    Eq(Box<Term>, Box<Term>),
    And(Box<Term>, Box<Term>),
    Or(Box<Term>, Box<Term>),
    Not(Box<Term>),
}

/// A lowered term with its sort.
#[derive(Debug, PartialEq, Eq)]
pub enum Sorted {
    Int(Term),
    Bool(Term),
}

/// A solver's answer on a boolean term.
#[derive(Debug, Clone, Copy, PartialEq, Eq, Structural)]
pub enum SatResult {
    Sat,
    Unsat,
    Unknown,
}

/// The text after an optional leading sign.
pub open spec fn unsigned_part(s: Seq<char>) -> Seq<char> {
    if s.len() > 0 && (s[0] == '+' || s[0] == '-') {
        s.drop_first()
    } else {
        s
    }
}

/// Whether every character of `d` is an ASCII digit.
pub open spec fn all_digits(d: Seq<char>) -> bool {
    forall|i: int| 0 <= i < d.len() ==> is_digit(#[trigger] d[i])
}

/// The signed value `s` spells: its digits' value, negated after a `-`.
pub open spec fn signed_value(s: Seq<char>) -> int {
    if s.len() > 0 && s[0] == '-' {
        -digits_value(unsigned_part(s))
    } else {
        digits_value(unsigned_part(s))
    }
}

/// What `str::parse::<i64>` accepts: an optional sign, then one or more
/// ASCII digits whose signed value fits an `i64`.
pub open spec fn parsed_i64(s: Seq<char>) -> Option<i64> {
    if unsigned_part(s).len() > 0 && all_digits(unsigned_part(s)) && i64::MIN <= signed_value(s)
        <= i64::MAX {
        Some(signed_value(s) as i64)
    } else {
        None
    }
}

/// Parses `text` as `str::parse::<i64>` does.
fn parse_i64(text: &str) -> (r: Option<i64>)
    ensures
        r == parsed_i64(text@),
{
    let n = text.unicode_len();
    let ghost s = text@;
    let mut start: usize = 0;
    let mut neg = false;
    if n > 0 {
        let c = text.get_char(0);
        if c == '+' || c == '-' {
            start = 1;
            neg = c == '-';
        }
    }
    let ghost d = unsigned_part(s);
    assert(d =~= s.subrange(start as int, n as int));
    assert(neg == (s.len() > 0 && s[0] == '-'));
    if start == n {
        return None;
    }
    let limit: u64 = if neg {
        0x8000_0000_0000_0000u64
    } else {
        0x7fff_ffff_ffff_ffffu64
    };
    let mut value: u64 = 0;
    let mut i: usize = start;
    while i < n
        invariant
            start <= i <= n,
            n == s.len(),
            s == text@,
            start < n,
            d == s.subrange(start as int, n as int),
            d == unsigned_part(s),
            neg == (s.len() > 0 && s[0] == '-'),
            limit == (if neg {
                0x8000_0000_0000_0000u64
            } else {
                0x7fff_ffff_ffff_ffffu64
            }),
            forall|k: int| start <= k < i ==> is_digit(#[trigger] s[k]),
            value == digits_value(d.take(i - start)),
            value <= limit,
        decreases n - i,
    {
        let c = text.get_char(i);
        proof {
            assert(d[i - start] == s[i as int]);
        }
        if c < '0' || c > '9' {
            proof {
                assert(!is_digit(d[i - start]));
                assert(!all_digits(d));
                assert(parsed_i64(s) is None);
            }
            return None;
        }
        proof {
            assert(d.take(i - start + 1).drop_last() =~= d.take(i - start));
            assert(d.take(i - start + 1).last() == c);
        }
        let digit = (c as u32 - '0' as u32) as u64;
        if value > (limit - digit) / 10 {
            proof {
                assert(value * 10 + digit > limit) by (nonlinear_arith)
                    requires
                        value > (limit - digit) / 10,
                        digit <= 9,
                        limit >= 9,
                ;
                assert(digits_value(d.take(i - start + 1)) == value * 10 + digit);
                if all_digits(d) {
                    lemma_digits_monotone(d, i - start + 1);
                    assert(digits_value(d) > limit);
                    if neg {
                        assert(-digits_value(d) < i64::MIN);
                    } else {
                        assert(digits_value(d) > i64::MAX);
                    }
                }
                assert(parsed_i64(s) is None);
            }
            return None;
        }
        proof {
            assert(value * 10 + digit <= limit) by (nonlinear_arith)
                requires
                    value <= (limit - digit) / 10,
                    digit <= 9,
                    limit >= 9,
            ;
        }
        value = value * 10 + digit;
        i = i + 1;
    }
    proof {
        assert(d.take(n - start) =~= d);
        assert forall|k: int| 0 <= k < d.len() implies is_digit(#[trigger] d[k]) by {
            assert(d[k] == s[start + k]);
        }
    }
    if neg {
        if value == 0x8000_0000_0000_0000u64 {
            Some(i64::MIN)
        } else {
            Some(-(value as i64))
        }
    } else {
        Some(value as i64)
    }
}

/// The term `e` lowers to, with the binder named `binder`; `None` when `e`
/// leaves the checked subset or applies an operator to operands of the
/// wrong sort.
pub open spec fn predicate_term(binder: Seq<char>, e: PredExpr) -> Option<Sorted>
    decreases e,
{
    match e {
        PredExpr::Int { text } => match parsed_i64(text@) {
            Some(v) => Some(Sorted::Int(Term::IntLit(v))),
            None => None,
        },
        PredExpr::Bool(b) => Some(Sorted::Bool(Term::BoolLit(b))),
        PredExpr::Path { name } => match name {
            Some(n) => if n@ == binder {
                Some(Sorted::Int(Term::Binder))
            } else {
                None
            },
            None => None,
        },
        PredExpr::Paren(inner) => match inner {
            Some(x) => predicate_term(binder, *x),
            None => None,
        },
        PredExpr::Prefix { op, expr } => match (op, expr) {
            (Some(o), Some(x)) => match (o, predicate_term(binder, *x)) {
                (PrefixOp::Not, Some(Sorted::Bool(b))) => Some(Sorted::Bool(Term::Not(Box::new(b)))),
                (PrefixOp::Neg, Some(Sorted::Int(i))) => Some(
                    Sorted::Int(Term::Sub(Box::new(Term::IntLit(0)), Box::new(i))),
                ),
                _ => None,
            },
            _ => None,
        },
        PredExpr::Bin { op, lhs, rhs } => match (op, lhs, rhs) {
            (Some(o), Some(l), Some(r)) => match (predicate_term(binder, *l), predicate_term(binder, *r)) {
                (Some(a), Some(b)) => combine(o, a, b),
                _ => None,
            },
            _ => None,
        },
        _ => None,
    }
}

/// A binary operator applied to two lowered operands: arithmetic and
/// comparisons on integers, `&&` and `||` on booleans.
pub open spec fn combine(o: BinOp, a: Sorted, b: Sorted) -> Option<Sorted> {
    match (a, b) {
        (Sorted::Int(l), Sorted::Int(r)) => match o {
            BinOp::Add => Some(Sorted::Int(Term::Add(Box::new(l), Box::new(r)))),
            BinOp::Subtract => Some(Sorted::Int(Term::Sub(Box::new(l), Box::new(r)))),
            BinOp::Multiply => Some(Sorted::Int(Term::Mul(Box::new(l), Box::new(r)))),
            BinOp::Less => Some(Sorted::Bool(Term::Lt(Box::new(l), Box::new(r)))),
            BinOp::LessEqual => Some(Sorted::Bool(Term::Le(Box::new(l), Box::new(r)))),
            BinOp::Greater => Some(Sorted::Bool(Term::Gt(Box::new(l), Box::new(r)))),
            BinOp::GreatEqual => Some(Sorted::Bool(Term::Ge(Box::new(l), Box::new(r)))),
            BinOp::Equals => Some(Sorted::Bool(Term::Eq(Box::new(l), Box::new(r)))),
            _ => None,
        },
        (Sorted::Bool(l), Sorted::Bool(r)) => match o {
            BinOp::BooleanAnd => Some(Sorted::Bool(Term::And(Box::new(l), Box::new(r)))),
            BinOp::BooleanOr => Some(Sorted::Bool(Term::Or(Box::new(l), Box::new(r)))),
            _ => None,
        },
        _ => None,
    }
}

/// Applies a binary operator to two lowered operands.
fn combine_terms(o: BinOp, a: Sorted, b: Sorted) -> (r: Option<Sorted>)
    ensures
        r == combine(o, a, b),
{
    match (a, b) {
        (Sorted::Int(l), Sorted::Int(r)) => match o {
            BinOp::Add => Some(Sorted::Int(Term::Add(Box::new(l), Box::new(r)))),
            BinOp::Subtract => Some(Sorted::Int(Term::Sub(Box::new(l), Box::new(r)))),
            BinOp::Multiply => Some(Sorted::Int(Term::Mul(Box::new(l), Box::new(r)))),
            BinOp::Less => Some(Sorted::Bool(Term::Lt(Box::new(l), Box::new(r)))),
            BinOp::LessEqual => Some(Sorted::Bool(Term::Le(Box::new(l), Box::new(r)))),
            BinOp::Greater => Some(Sorted::Bool(Term::Gt(Box::new(l), Box::new(r)))),
            BinOp::GreatEqual => Some(Sorted::Bool(Term::Ge(Box::new(l), Box::new(r)))),
            BinOp::Equals => Some(Sorted::Bool(Term::Eq(Box::new(l), Box::new(r)))),
            _ => None,
        },
        (Sorted::Bool(l), Sorted::Bool(r)) => match o {
            BinOp::BooleanAnd => Some(Sorted::Bool(Term::And(Box::new(l), Box::new(r)))),
            BinOp::BooleanOr => Some(Sorted::Bool(Term::Or(Box::new(l), Box::new(r)))),
            _ => None,
        },
        _ => None,
    }
}

/// Lowers a refinement predicate whose binder is named `binder` to a sorted
/// term, or `None` when it leaves the checked subset.
pub fn lower_predicate(binder: &str, e: &PredExpr) -> (r: Option<Sorted>)
    ensures
        r == predicate_term(binder@, *e),
    decreases e,
{
    match e {
        PredExpr::Int { text } => match parse_i64(text.as_str()) {
            Some(v) => Some(Sorted::Int(Term::IntLit(v))),
            None => None,
        },
        PredExpr::Bool(b) => Some(Sorted::Bool(Term::BoolLit(*b))),
        PredExpr::OtherLiteral => None,
        PredExpr::Path { name } => match name {
            Some(n) => if crate::text::str_eq(n.as_str(), binder) {
                Some(Sorted::Int(Term::Binder))
            } else {
                None
            },
            None => None,
        },
        PredExpr::Paren(inner) => match inner {
            Some(x) => lower_predicate(binder, x),
            None => None,
        },
        PredExpr::Prefix { op, expr } => match (op, expr) {
            (Some(o), Some(x)) => match (*o, lower_predicate(binder, x)) {
                (PrefixOp::Not, Some(Sorted::Bool(b))) => Some(Sorted::Bool(Term::Not(Box::new(b)))),
                (PrefixOp::Neg, Some(Sorted::Int(i))) => Some(
                    Sorted::Int(Term::Sub(Box::new(Term::IntLit(0)), Box::new(i))),
                ),
                _ => None,
            },
            _ => None,
        },
        PredExpr::Bin { op, lhs, rhs } => match (op, lhs, rhs) {
            (Some(o), Some(l), Some(r)) => {
                let a = lower_predicate(binder, l);
                let b = lower_predicate(binder, r);
                match (a, b) {
                    (Some(a), Some(b)) => combine_terms(*o, a, b),
                    _ => None,
                }
            },
            _ => None,
        },
        PredExpr::Other => None,
    }
}

/// The verdict on a lowered predicate once the solver judged it: an
/// unsatisfiable boolean term makes an empty type; a satisfiable or
/// undecided one is not reported; a predicate outside the subset, or not a
/// boolean, is not checked (the solver's answer is then not consulted).
pub fn refinement_verdict(lowered: &Option<Sorted>, sat: SatResult) -> (r: RefinementCheckResult)
    ensures
        r == (match lowered {
            Some(Sorted::Bool(_)) => match sat {
                SatResult::Unsat => RefinementCheckResult::Unsatisfiable,
                _ => RefinementCheckResult::Satisfiable,
            },
            _ => RefinementCheckResult::NotChecked,
        }),
{
    match lowered {
        Some(Sorted::Bool(_)) => match sat {
            SatResult::Unsat => RefinementCheckResult::Unsatisfiable,
            _ => RefinementCheckResult::Satisfiable,
        },
        _ => RefinementCheckResult::NotChecked,
    }
}


// ---------------------------------------------------------------------
// What a predicate and a term mean
// ---------------------------------------------------------------------

/// A value of the predicate language.
pub enum PredValue {
    Int(int),
    Bool(bool),
}

/// The integer a value holds (zero for a boolean).
pub open spec fn int_of(v: PredValue) -> int {
    match v {
        PredValue::Int(i) => i,
        PredValue::Bool(_) => 0,
    }
}

/// The truth a value holds (false for an integer).
pub open spec fn bool_of(v: PredValue) -> bool {
    match v {
        PredValue::Bool(b) => b,
        PredValue::Int(_) => false,
    }
}

/// The value of a term when the binder is `v`.
pub open spec fn term_value(t: Term, v: int) -> PredValue
    decreases t,
{
    match t {
        Term::IntLit(n) => PredValue::Int(n as int),
        Term::BoolLit(b) => PredValue::Bool(b),
        Term::Binder => PredValue::Int(v),
        Term::Add(l, r) => PredValue::Int(int_of(term_value(*l, v)) + int_of(term_value(*r, v))),
        Term::Sub(l, r) => PredValue::Int(int_of(term_value(*l, v)) - int_of(term_value(*r, v))),
        Term::Mul(l, r) => PredValue::Int(int_of(term_value(*l, v)) * int_of(term_value(*r, v))),
        Term::Lt(l, r) => PredValue::Bool(int_of(term_value(*l, v)) < int_of(term_value(*r, v))),
        Term::Le(l, r) => PredValue::Bool(int_of(term_value(*l, v)) <= int_of(term_value(*r, v))),
        Term::Gt(l, r) => PredValue::Bool(int_of(term_value(*l, v)) > int_of(term_value(*r, v))),
        Term::Ge(l, r) => PredValue::Bool(int_of(term_value(*l, v)) >= int_of(term_value(*r, v))),
        Term::Eq(l, r) => PredValue::Bool(int_of(term_value(*l, v)) == int_of(term_value(*r, v))),
        Term::And(l, r) => PredValue::Bool(bool_of(term_value(*l, v)) && bool_of(term_value(*r, v))),
        Term::Or(l, r) => PredValue::Bool(bool_of(term_value(*l, v)) || bool_of(term_value(*r, v))),
        Term::Not(x) => PredValue::Bool(!bool_of(term_value(*x, v))),
    }
}

/// The value of a sorted term when the binder is `v`.
pub open spec fn sorted_value(s: Sorted, v: int) -> PredValue {
    match s {
        Sorted::Int(t) => term_value(t, v),
        Sorted::Bool(t) => term_value(t, v),
    }
}

/// What a binary operator means on two values of the right sorts: integer
/// arithmetic and comparisons, boolean `&&` and `||`; `None` otherwise.
pub open spec fn bin_meaning(o: BinOp, a: PredValue, b: PredValue) -> Option<PredValue> {
    match (a, b) {
        (PredValue::Int(x), PredValue::Int(y)) => match o {
            BinOp::Add => Some(PredValue::Int(x + y)),
            BinOp::Subtract => Some(PredValue::Int(x - y)),
            BinOp::Multiply => Some(PredValue::Int(x * y)),
            BinOp::Less => Some(PredValue::Bool(x < y)),
            BinOp::LessEqual => Some(PredValue::Bool(x <= y)),
            BinOp::Greater => Some(PredValue::Bool(x > y)),
            BinOp::GreatEqual => Some(PredValue::Bool(x >= y)),
            BinOp::Equals => Some(PredValue::Bool(x == y)),
            _ => None,
        },
        (PredValue::Bool(p), PredValue::Bool(q)) => match o {
            BinOp::BooleanAnd => Some(PredValue::Bool(p && q)),
            BinOp::BooleanOr => Some(PredValue::Bool(p || q)),
            _ => None,
        },
        _ => None,
    }
}

/// What a predicate means when its binder `binder` is `v`; `None` when it
/// leaves the checked subset or applies an operator to values of the wrong
/// sort.
pub open spec fn predicate_value(binder: Seq<char>, e: PredExpr, v: int) -> Option<PredValue>
    decreases e,
{
    match e {
        PredExpr::Int { text } => match parsed_i64(text@) {
            Some(n) => Some(PredValue::Int(n as int)),
            None => None,
        },
        PredExpr::Bool(b) => Some(PredValue::Bool(b)),
        PredExpr::Path { name } => match name {
            Some(n) => if n@ == binder {
                Some(PredValue::Int(v))
            } else {
                None
            },
            None => None,
        },
        PredExpr::Paren(inner) => match inner {
            Some(x) => predicate_value(binder, *x, v),
            None => None,
        },
        PredExpr::Prefix { op, expr } => match (op, expr) {
            (Some(PrefixOp::Not), Some(x)) => match predicate_value(binder, *x, v) {
                Some(PredValue::Bool(p)) => Some(PredValue::Bool(!p)),
                _ => None,
            },
            (Some(PrefixOp::Neg), Some(x)) => match predicate_value(binder, *x, v) {
                Some(PredValue::Int(i)) => Some(PredValue::Int(-i)),
                _ => None,
            },
            _ => None,
        },
        PredExpr::Bin { op, lhs, rhs } => match (op, lhs, rhs) {
            (Some(o), Some(l), Some(r)) => match (
                predicate_value(binder, *l, v),
                predicate_value(binder, *r, v),
            ) {
                (Some(a), Some(b)) => bin_meaning(o, a, b),
                _ => None,
            },
            _ => None,
        },
        _ => None,
    }
}

/// Whether a sorted term's sort is that of a value.
pub open spec fn same_sort(s: Sorted, a: PredValue) -> bool {
    match (s, a) {
        (Sorted::Int(_), PredValue::Int(_)) => true,
        (Sorted::Bool(_), PredValue::Bool(_)) => true,
        _ => false,
    }
}

/// Lowering keeps a predicate's meaning: a predicate lowers to a term
/// exactly when it has a value, and then, whatever the binder's value, the
/// term evaluates to what the predicate means (`x >= 0` holds at `x = 0`,
/// `-(x + 1)` is the negated sum), with the same sort.
pub proof fn law_lowering_keeps_the_meaning(binder: Seq<char>, e: PredExpr, v: int)
    ensures
        predicate_term(binder, e) is Some <==> predicate_value(binder, e, v) is Some,
        predicate_term(binder, e) matches Some(s) ==> predicate_value(binder, e, v) == Some(
            sorted_value(s, v),
        ) && same_sort(s, sorted_value(s, v)),
    decreases e,
{
    match e {
        PredExpr::Paren(Some(x)) => {
            law_lowering_keeps_the_meaning(binder, *x, v);
            assert(predicate_term(binder, e) == predicate_term(binder, *x));
            assert(predicate_value(binder, e, v) == predicate_value(binder, *x, v));
        },
        PredExpr::Prefix { op, expr: Some(x) } => {
            law_lowering_keeps_the_meaning(binder, *x, v);
            match (op, predicate_term(binder, *x)) {
                (Some(PrefixOp::Neg), Some(Sorted::Int(i))) => {
                    assert(term_value(Term::IntLit(0), v) == PredValue::Int(0));
                    assert(predicate_term(binder, e) == Some(
                        Sorted::Int(Term::Sub(Box::new(Term::IntLit(0)), Box::new(i))),
                    ));
                },
                (Some(PrefixOp::Not), Some(Sorted::Bool(b))) => {
                    assert(predicate_term(binder, e) == Some(Sorted::Bool(Term::Not(Box::new(b)))));
                },
                _ => {},
            }
        },
        PredExpr::Bin { op, lhs: Some(l), rhs: Some(r) } => {
            law_lowering_keeps_the_meaning(binder, *l, v);
            law_lowering_keeps_the_meaning(binder, *r, v);
            assert(predicate_term(binder, e) is Some ==> predicate_value(binder, e, v) == Some(
                sorted_value(predicate_term(binder, e)->Some_0, v),
            ));
        },
        PredExpr::Int { text } => {
            assert(predicate_term(binder, e) is Some ==> predicate_value(binder, e, v) == Some(
                sorted_value(predicate_term(binder, e)->Some_0, v),
            ));
        },
        _ => {
            assert(predicate_term(binder, e) is Some ==> predicate_value(binder, e, v) == Some(
                sorted_value(predicate_term(binder, e)->Some_0, v),
            ));
        },
    }
}

} // verus!

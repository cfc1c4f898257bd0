//! Reading the arguments of `@heal(...)` and its companion attributes.
//!
//! An argument is given as the shape the parser found (`AttrExpr`); from it
//! come fault classes (`Timeout`, `Custom("name")`), strategies (bare names,
//! or `ReturnDefault(0)`, `RetryWithBackoff(3)`, `SubstituteAlternate(f)`),
//! and the capabilities `@memoizable`, `@snapshot` and `@idempotent(n)`.
use crate::heal_contract::{fault_from_name, strategy_name_of, Capabilities, FaultClass, Strategy};
use vstd::prelude::*;

verus! {

/// An attribute argument as parsed.
#[derive(Debug)]
pub enum AttrExpr {
    /// A path; `name` is its segment's text when the segment is a plain
    /// name.
    Path { name: Option<String> },
    /// A call; the callee and the argument list are absent where they did
    /// not parse.
    Call { callee: Option<Box<AttrExpr>>, args: Option<Vec<AttrExpr>> },
    /// An integer literal: its digits, without the suffix.
    Int { digits: String },
    /// A string literal, as written, quotes included.
    Str { text: String },
    /// `-expr`; the operand is absent where it did not parse.
    Neg { expr: Option<Box<AttrExpr>> },
    /// `[a, b, ..]`, each element with its source text.
    Array(Vec<Written>),
    /// Any other expression, another prefix operator included.
    Other,
}

/// An expression together with its text as written in the source.
#[derive(Debug)]
pub struct Written {
    pub text: String,
    pub expr: AttrExpr,
}

/// An attribute of a function: its name, when it is a plain name, and its
/// argument list as the parser leaves it, when it has one.
#[derive(Debug)]
pub struct Attribute {
    pub name: Option<String>,
    pub args: Option<Vec<ArgElement>>,
}

// ---------------------------------------------------------------------
// Literals
// ---------------------------------------------------------------------

/// Whether `c` is an ASCII digit.
pub open spec fn is_digit(c: char) -> bool {
    '0' <= c && c <= '9'
}

/// The value of a decimal digit.
pub open spec fn digit_value(c: char) -> int {
    c as int - '0' as int
}

/// The value of a string of decimal digits.
pub open spec fn digits_value(s: Seq<char>) -> int
    decreases s.len(),
{
    if s.len() == 0 {
        0
    } else {
        10 * digits_value(s.drop_last()) + digit_value(s.last())
    }
}

/// The text after an optional leading `+`.
pub open spec fn digits_part(s: Seq<char>) -> Seq<char> {
    if s.len() > 0 && s[0] == '+' {
        s.drop_first()
    } else {
        s
    }
}

/// What `str::parse::<u32>` accepts: an optional `+`, then one or more
/// ASCII digits whose value fits a `u32`.
pub open spec fn parsed_u32(s: Seq<char>) -> Option<u32> {
    let d = digits_part(s);
    if d.len() > 0 && (forall|i: int| 0 <= i < d.len() ==> is_digit(#[trigger] d[i]))
        && digits_value(d) <= u32::MAX {
        Some(digits_value(d) as u32)
    } else {
        None
    }
}

/// A longer run of digits is worth at least as much.
pub proof fn lemma_digits_monotone(s: Seq<char>, i: int)
    requires
        0 <= i <= s.len(),
        forall|k: int| 0 <= k < s.len() ==> is_digit(#[trigger] s[k]),
    ensures
        0 <= digits_value(s.take(i)) <= digits_value(s),
    decreases s.len() - i,
{
    if i < s.len() {
        lemma_digits_monotone(s, i + 1);
        assert(s.take(i + 1).drop_last() =~= s.take(i));
        assert(is_digit(s[i]));
    } else {
        assert(s.take(i) =~= s);
    }
    lemma_digits_nonnegative(s);
}

/// Digit strings are worth at least zero.
pub proof fn lemma_digits_nonnegative(s: Seq<char>)
    requires
        forall|k: int| 0 <= k < s.len() ==> is_digit(#[trigger] s[k]),
    ensures
        digits_value(s) >= 0,
    decreases s.len(),
{
    if s.len() > 0 {
        assert(is_digit(s[s.len() - 1]));
        lemma_digits_nonnegative(s.drop_last());
    }
}

/// Parses `text` as `str::parse::<u32>` does.
fn parse_u32(text: &str) -> (r: Option<u32>)
    ensures
        r == parsed_u32(text@),
{
    let n = text.unicode_len();
    let ghost s = text@;
    let mut start: usize = 0;
    if n > 0 && text.get_char(0) == '+' {
        start = 1;
    }
    let ghost d = digits_part(s);
    assert(d =~= s.subrange(start as int, n as int));
    if start == n {
        return None;
    }
    let mut value: u64 = 0;
    let mut i: usize = start;
    while i < n
        invariant
            start <= i <= n,
            n == s.len(),
            s == text@,
            d == s.subrange(start as int, n as int),
            d == digits_part(s),
            forall|k: int| start <= k < i ==> is_digit(#[trigger] s[k]),
            value == digits_value(d.take(i - start)),
            value <= u32::MAX,
        decreases n - i,
    {
        let c = text.get_char(i);
        proof {
            assert(d[i - start] == s[i as int]);
        }
        if c < '0' || c > '9' {
            proof {
                assert(!is_digit(d[i - start]));
                assert(!(forall|k: int| 0 <= k < d.len() ==> is_digit(#[trigger] d[k])));
                assert(parsed_u32(s) is None);
            }
            return None;
        }
        proof {
            assert(d.take(i - start + 1).drop_last() =~= d.take(i - start));
            assert(d.take(i - start + 1).last() == c);
        }
        let digit = (c as u32 - '0' as u32) as u64;
        value = value * 10 + digit;
        if value > 0xffff_ffffu64 {
            proof {
                assert(value == digits_value(d.take(i - start + 1)));
                if forall|k: int| 0 <= k < d.len() ==> is_digit(#[trigger] d[k]) {
                    lemma_digits_monotone(d, i - start + 1);
                    assert(digits_value(d) > u32::MAX);
                }
                assert(parsed_u32(s) is None);
            }
            return None;
        }
        i = i + 1;
    }
    proof {
        assert(d.take(n - start) =~= d);
    }
    Some(value as u32)
}

/// The text without its leading and trailing `"` characters, as
/// `str::trim_matches('"')` leaves it.
pub open spec fn trim_quotes(s: Seq<char>) -> Seq<char>
    decreases s.len(),
{
    if s.len() > 0 && s[0] == '"' {
        trim_quotes(s.drop_first())
    } else if s.len() > 0 && s.last() == '"' {
        trim_quotes(s.drop_last())
    } else {
        s
    }
}

/// Strips the quotes around a string literal's text.
fn trim_quotes_of(text: &str) -> (r: String)
    ensures
        r@ == trim_quotes(text@),
{
    let n = text.unicode_len();
    let ghost s = text@;
    assert(s.subrange(0, n as int) =~= s);
    let mut a: usize = 0;
    while a < n && text.get_char(a) == '"'
        invariant
            0 <= a <= n,
            n == s.len(),
            s == text@,
            trim_quotes(s) == trim_quotes(s.subrange(a as int, n as int)),
        decreases n - a,
    {
        proof {
            assert(s.subrange(a as int, n as int).drop_first() =~= s.subrange(a + 1, n as int));
        }
        a = a + 1;
    }
    let mut b: usize = n;
    while b > a && text.get_char(b - 1) == '"'
        invariant
            a <= b <= n,
            n == s.len(),
            s == text@,
            a < n ==> s[a as int] != '"',
            trim_quotes(s) == trim_quotes(s.subrange(a as int, b as int)),
        decreases b - a,
    {
        proof {
            let t = s.subrange(a as int, b as int);
            assert(t[0] == s[a as int]);
            assert(t.last() == s[b - 1]);
            assert(t.drop_last() =~= s.subrange(a as int, b - 1));
        }
        b = b - 1;
    }
    proof {
        let t = s.subrange(a as int, b as int);
        if t.len() > 0 {
            assert(t[0] == s[a as int]);
            assert(t.last() == s[b - 1]);
        }
    }
    String::from_str(text.substring_char(a, b))
}

// ---------------------------------------------------------------------
// Reading arguments
// ---------------------------------------------------------------------

/// The plain name a path argument spells.
pub open spec fn path_name_of(e: AttrExpr) -> Option<Seq<char>> {
    match e {
        AttrExpr::Path { name: Some(n) } => Some(n@),
        _ => None,
    }
}

/// The plain name of a path argument, if it is one.
pub fn path_name(e: &AttrExpr) -> (r: Option<String>)
    ensures
        opt_text(r) == path_name_of(*e),
{
    match e {
        AttrExpr::Path { name: Some(n) } => Some(n.clone()),
        _ => None,
    }
}

/// The text of an optional string.
pub open spec fn opt_text(s: Option<String>) -> Option<Seq<char>> {
    match s {
        Some(t) => Some(t@),
        None => None,
    }
}

/// The contents a string-literal argument spells.
pub open spec fn string_literal_of(e: AttrExpr) -> Option<Seq<char>> {
    match e {
        AttrExpr::Str { text } => Some(trim_quotes(text@)),
        _ => None,
    }
}

/// The contents of a string-literal argument, its quotes stripped.
pub fn string_literal(e: &AttrExpr) -> (r: Option<String>)
    ensures
        opt_text(r) == string_literal_of(*e),
{
    match e {
        AttrExpr::Str { text } => Some(trim_quotes_of(text.as_str())),
        _ => None,
    }
}

/// The value an integer-literal argument spells, if it fits a `u32`.
pub open spec fn literal_u32_of(e: AttrExpr) -> Option<u32> {
    match e {
        AttrExpr::Int { digits } => parsed_u32(digits@),
        _ => None,
    }
}

/// The value of an integer-literal argument, if it fits a `u32`.
pub fn literal_u32(e: &AttrExpr) -> (r: Option<u32>)
    ensures
        r == literal_u32_of(*e),
{
    match e {
        AttrExpr::Int { digits } => parse_u32(digits.as_str()),
        _ => None,
    }
}

/// The value a possibly negated integer-literal argument spells.
pub open spec fn literal_i64_of(e: AttrExpr) -> Option<int>
    decreases e,
{
    match e {
        AttrExpr::Neg { expr: Some(inner) } => match literal_i64_of(*inner) {
            Some(v) => Some(-v),
            None => None,
        },
        AttrExpr::Neg { expr: None } => None,
        _ => match literal_u32_of(e) {
            Some(v) => Some(v as int),
            None => None,
        },
    }
}

/// The value of a possibly negated integer literal, `-n` being the
/// negation of `n`.
pub fn literal_i64(e: &AttrExpr) -> (r: Option<i64>)
    ensures
        match literal_i64_of(*e) {
            Some(v) => r == Some(v as i64) && -0xffff_ffff <= v <= 0xffff_ffff,
            None => r is None,
        },
    decreases e,
{
    match e {
        AttrExpr::Neg { expr: Some(inner) } => match literal_i64(inner) {
            Some(v) => Some(-v),
            None => None,
        },
        AttrExpr::Neg { expr: None } => None,
        _ => match literal_u32(e) {
            Some(v) => Some(v as i64),
            None => None,
        },
    }
}

/// The plain name of a call's callee.
pub open spec fn callee_name_of(callee: Option<Box<AttrExpr>>) -> Option<Seq<char>> {
    match callee {
        Some(c) => path_name_of(*c),
        None => None,
    }
}

/// The first argument of a call, when the argument list parsed and is not
/// empty.
pub open spec fn first_arg(args: Option<Vec<AttrExpr>>) -> Option<AttrExpr> {
    match args {
        Some(a) => if a@.len() > 0 {
            Some(a@[0])
        } else {
            None
        },
        None => None,
    }
}

/// The name of a call's callee, if it is a plain path.
fn callee_name(callee: &Option<Box<AttrExpr>>) -> (r: Option<String>)
    ensures
        opt_text(r) == callee_name_of(*callee),
{
    match callee {
        Some(c) => path_name(c),
        None => None,
    }
}

/// Whether `r` is the fault class that `e` names: `Custom("name")` with a
/// string literal, or a built-in class by its bare name.
pub open spec fn fault_class_read(e: AttrExpr, r: Option<FaultClass>) -> bool {
    match e {
        AttrExpr::Call { callee, args } => if callee_name_of(callee) == Some("Custom"@) && (match first_arg(args) {
            Some(a) => string_literal_of(a) is Some,
            None => false,
        }) {
            r matches Some(FaultClass::Custom(n)) && Some(n@) == string_literal_of(
                first_arg(args).unwrap(),
            )
        } else {
            r is None
        },
        _ => match path_name_of(e) {
            Some(n) => r == fault_from_name(n),
            None => r is None,
        },
    }
}

/// The fault class an `on:` element names, if any.
pub fn parse_fault_class(e: &AttrExpr) -> (r: Option<FaultClass>)
    ensures
        fault_class_read(*e, r),
{
    proof {
        reveal_strlit("Custom");
    }
    match e {
        AttrExpr::Call { callee, args } => {
            let name = callee_name(callee);
            let is_custom = match &name {
                Some(n) => crate::text::str_eq(n.as_str(), "Custom"),
                None => false,
            };
            if !is_custom {
                return None;
            }
            match args {
                Some(a) => {
                    if a.len() == 0 {
                        return None;
                    }
                    match string_literal(&a[0]) {
                        Some(text) => Some(FaultClass::Custom(text)),
                        None => None,
                    }
                },
                None => None,
            }
        },
        _ => match path_name(e) {
            Some(n) => FaultClass::from_name(n.as_str()),
            None => None,
        },
    }
}

/// The strategy a bare name denotes; the parameterised ones need their
/// argument and denote nothing bare.
pub open spec fn bare_strategy(n: Seq<char>) -> Option<Strategy> {
    if n == "ReturnDefault"@ {
        Some(Strategy::ReturnDefault(None))
    } else if n == "ReturnCached"@ {
        Some(Strategy::ReturnCached)
    } else if n == "DegradeGracefully"@ {
        Some(Strategy::DegradeGracefully)
    } else if n == "IsolateAndRestart"@ {
        Some(Strategy::IsolateAndRestart)
    } else if n == "PropagateToParent"@ {
        Some(Strategy::PropagateToParent)
    } else {
        None
    }
}

/// Whether `r` is the strategy `e` spells: a bare name, or one of
/// `ReturnDefault(n)`, `RetryWithBackoff(n)`, `SubstituteAlternate(f)`
/// (`f` a path or a string literal) with a readable first argument.
pub open spec fn strategy_read(e: AttrExpr, r: Option<Strategy>) -> bool {
    match e {
        AttrExpr::Call { callee, args } => match (callee_name_of(callee), first_arg(args)) {
            (Some(name), Some(a)) => if name == "ReturnDefault"@ {
                match literal_i64_of(a) {
                    Some(v) => r == Some(Strategy::ReturnDefault(Some(v as i64))),
                    None => r is None,
                }
            } else if name == "RetryWithBackoff"@ {
                match literal_u32_of(a) {
                    Some(v) => r == Some(Strategy::RetryWithBackoff(v)),
                    None => r is None,
                }
            } else if name == "SubstituteAlternate"@ {
                let target = match path_name_of(a) {
                    Some(p) => Some(p),
                    None => string_literal_of(a),
                };
                match target {
                    Some(t) => r matches Some(Strategy::SubstituteAlternate(n)) && n@ == t,
                    None => r is None,
                }
            } else {
                r is None
            },
            _ => r is None,
        },
        _ => match path_name_of(e) {
            Some(n) => r == bare_strategy(n),
            None => r is None,
        },
    }
}

/// The strategy a `strategies:` element spells, if any.
pub fn parse_strategy(e: &AttrExpr) -> (r: Option<Strategy>)
    ensures
        strategy_read(*e, r),
{
    match e {
        AttrExpr::Call { callee, args } => {
            let name = match callee_name(callee) {
                Some(n) => n,
                None => return None,
            };
            let arg = match args {
                Some(a) => if a.len() > 0 {
                    &a[0]
                } else {
                    return None;
                },
                None => return None,
            };
            if crate::text::str_eq(name.as_str(), "ReturnDefault") {
                match literal_i64(arg) {
                    Some(v) => Some(Strategy::ReturnDefault(Some(v))),
                    None => None,
                }
            } else if crate::text::str_eq(name.as_str(), "RetryWithBackoff") {
                match literal_u32(arg) {
                    Some(v) => Some(Strategy::RetryWithBackoff(v)),
                    None => None,
                }
            } else if crate::text::str_eq(name.as_str(), "SubstituteAlternate") {
                let target = match path_name(arg) {
                    Some(p) => Some(p),
                    None => string_literal(arg),
                };
                match target {
                    Some(t) => Some(Strategy::SubstituteAlternate(t)),
                    None => None,
                }
            } else {
                None
            }
        },
        _ => {
            let n = match path_name(e) {
                Some(n) => n,
                None => return None,
            };
            if crate::text::str_eq(n.as_str(), "ReturnDefault") {
                Some(Strategy::ReturnDefault(None))
            } else if crate::text::str_eq(n.as_str(), "ReturnCached") {
                Some(Strategy::ReturnCached)
            } else if crate::text::str_eq(n.as_str(), "DegradeGracefully") {
                Some(Strategy::DegradeGracefully)
            } else if crate::text::str_eq(n.as_str(), "IsolateAndRestart") {
                Some(Strategy::IsolateAndRestart)
            } else if crate::text::str_eq(n.as_str(), "PropagateToParent") {
                Some(Strategy::PropagateToParent)
            } else {
                None
            }
        },
    }
}

/// The elements of a list argument: those of an array, else the argument
/// itself.
pub open spec fn items_of(w: Written) -> Seq<Written> {
    match w.expr {
        AttrExpr::Array(items) => items@,
        _ => seq![w],
    }
}

/// The elements of a list argument: those of an array, else the argument
/// itself.
pub fn list_elements(e: &Written) -> (r: Vec<&Written>)
    ensures
        r@.len() == items_of(*e).len(),
        forall|i: int| 0 <= i < r@.len() ==> *r@[i] == items_of(*e)[i],
{
    match &e.expr {
        AttrExpr::Array(items) => {
            let mut r: Vec<&Written> = Vec::new();
            let mut i: usize = 0;
            while i < items.len()
                invariant
                    0 <= i <= items@.len(),
                    r@.len() == i,
                    forall|k: int| 0 <= k < i ==> *r@[k] == items@[k],
                decreases items@.len() - i,
            {
                r.push(&items[i]);
                i = i + 1;
            }
            r
        },
        _ => {
            let mut r: Vec<&Written> = Vec::new();
            r.push(e);
            r
        },
    }
}

/// One element of an attribute's argument list as the parser leaves it,
/// trivia removed: a `name: value` argument is the identifier, the colon
/// and the value's node in a row.
#[derive(Debug)]
pub enum ArgElement {
    /// An identifier token, with its text.
    Ident(String),
    /// A `:` token.
    Colon,
    /// Any other token.
    OtherToken,
    /// A node; its expression, with its text, when it is one.
    Node(Option<Written>),
}

/// The value of the first argument labelled `name` in `els[i..]`: an
/// identifier `name` followed by a colon and an expression node. An
/// identifier `name` with nothing after it, or with a node after it, ends
/// the search with nothing found.
pub open spec fn named_from(els: Seq<ArgElement>, name: Seq<char>, i: int) -> Option<Written>
    decreases els.len() - i,
{
    if i < 0 || i >= els.len() {
        None
    } else if els[i] matches ArgElement::Ident(n) && n@ == name {
        if i + 1 >= els.len() || els[i + 1] is Node {
            None
        } else if els[i + 1] is Colon && i + 2 < els.len() && els[i + 2] is Node && els[i
            + 2]->Node_0 is Some {
            els[i + 2]->Node_0
        } else {
            named_from(els, name, i + 1)
        }
    } else {
        named_from(els, name, i + 1)
    }
}

/// The value of the argument labelled `name` in an argument list.
pub fn named_arg<'a>(els: &'a Vec<ArgElement>, name: &str) -> (r: Option<&'a Written>)
    ensures
        match named_from(els@, name@, 0) {
            Some(e) => r matches Some(v) && *v == e,
            None => r is None,
        },
{
    let mut i: usize = 0;
    while i < els.len()
        invariant
            0 <= i <= els@.len(),
            named_from(els@, name@, 0) == named_from(els@, name@, i as int),
        decreases els@.len() - i,
    {
        if let ArgElement::Ident(label) = &els[i] {
            if crate::text::str_eq(label.as_str(), name) {
                if i + 1 >= els.len() {
                    return None;
                }
                match &els[i + 1] {
                    ArgElement::Node(_) => {
                        return None;
                    },
                    ArgElement::Colon => {
                        if i + 2 < els.len() {
                            if let ArgElement::Node(Some(e)) = &els[i + 2] {
                                return Some(e);
                            }
                        }
                    },
                    _ => {},
                }
            }
        }
        i = i + 1;
    }
    None
}

/// The first expression among `els[i..]`.
pub open spec fn first_expr_from(els: Seq<ArgElement>, i: int) -> Option<AttrExpr>
    decreases els.len() - i,
{
    if i < 0 || i >= els.len() {
        None
    } else {
        match els[i] {
            ArgElement::Node(Some(w)) => Some(w.expr),
            _ => first_expr_from(els, i + 1),
        }
    }
}

/// The first expression argument of an argument list, when it has one.
pub open spec fn first_expr_arg(args: Option<Vec<ArgElement>>) -> Option<AttrExpr> {
    match args {
        Some(els) => first_expr_from(els@, 0),
        None => None,
    }
}

/// The first expression argument of an argument list, when it has one.
fn first_expression(args: &Option<Vec<ArgElement>>) -> (r: Option<&AttrExpr>)
    ensures
        match first_expr_arg(*args) {
            Some(e) => r matches Some(x) && *x == e,
            None => r is None,
        },
{
    let els = match args {
        Some(els) => els,
        None => return None,
    };
    let mut i: usize = 0;
    while i < els.len()
        invariant
            0 <= i <= els@.len(),
            *args == Some(*els),
            first_expr_from(els@, 0) == first_expr_from(els@, i as int),
        decreases els@.len() - i,
    {
        if let ArgElement::Node(Some(w)) = &els[i] {
            proof {
                assert(first_expr_from(els@, i as int) == Some(w.expr));
            }
            return Some(&w.expr);
        }
        i = i + 1;
    }
    None
}

/// The capabilities the attributes `attrs[0..k]` declare: `@memoizable`,
/// `@snapshot`, and `@idempotent(n)`, whose last occurrence counts and
/// declares no bound (zero) without a readable `n`.
pub open spec fn capabilities_of(attrs: Seq<Attribute>, k: int) -> Capabilities
    decreases k,
{
    if k <= 0 || k > attrs.len() {
        Capabilities { memoizable: false, snapshot: false, idempotent_up_to: 0 }
    } else {
        let prev = capabilities_of(attrs, k - 1);
        let a = attrs[k - 1];
        match a.name {
            Some(n) => if n@ == "memoizable"@ {
                Capabilities { memoizable: true, ..prev }
            } else if n@ == "snapshot"@ {
                Capabilities { snapshot: true, ..prev }
            } else if n@ == "idempotent"@ {
                Capabilities {
                    idempotent_up_to: match first_expr_arg(a.args) {
                        Some(arg) => match literal_u32_of(arg) {
                            Some(v) => v,
                            None => 0,
                        },
                        None => 0,
                    },
                    ..prev
                }
            } else {
                prev
            },
            None => prev,
        }
    }
}

/// The capabilities a function declares through its attributes; none
/// without an attribute list.
pub fn read_capabilities(attributes: Option<&Vec<Attribute>>) -> (c: Capabilities)
    ensures
        c == match attributes {
            Some(list) => capabilities_of(list@, list@.len() as int),
            None => capabilities_of(Seq::empty(), 0),
        },
{
    let mut caps = Capabilities { memoizable: false, snapshot: false, idempotent_up_to: 0 };
    let list = match attributes {
        Some(list) => list,
        None => return caps,
    };
    let mut i: usize = 0;
    while i < list.len()
        invariant
            0 <= i <= list@.len(),
            caps == capabilities_of(list@, i as int),
        decreases list@.len() - i,
    {
        let a = &list[i];
        match &a.name {
            Some(n) => {
                if crate::text::str_eq(n.as_str(), "memoizable") {
                    caps.memoizable = true;
                } else if crate::text::str_eq(n.as_str(), "snapshot") {
                    caps.snapshot = true;
                } else if crate::text::str_eq(n.as_str(), "idempotent") {
                    let bound = match first_expression(&a.args) {
                        Some(arg) => match literal_u32(arg) {
                            Some(v) => v,
                            None => 0,
                        },
                        None => 0,
                    };
                    caps.idempotent_up_to = bound;
                }
            },
            None => {},
        }
        i = i + 1;
    }
    caps
}

/// How the function an alternate names relates to the guarded function.
#[derive(Debug, Clone, Copy, PartialEq, Eq, Structural)]
pub enum AlternateMatch {
    /// No function of the module has that name.
    NotFound,
    /// It is the guarded function itself.
    SameFunction,
    /// Its parameters or return type differ.
    SignatureMismatch,
    /// It can stand in for the guarded function.
    Compatible,
}

/// Why the alternate `name` cannot stand in for the guarded function.
pub open spec fn alternate_problem_text(name: Seq<char>, found: AlternateMatch) -> Option<Seq<char>> {
    match found {
        AlternateMatch::SameFunction => Some(
            "`"@ + name
                + "` is the guarded function itself, so substituting it would re-run the call that just faulted"@,
        ),
        AlternateMatch::SignatureMismatch => Some(
            "`"@ + name
                + "` does not have the same signature as this function, so it cannot stand in for it"@,
        ),
        _ => None,
    }
}

/// Why the alternate `name` cannot stand in for the guarded function, or
/// `None` when it can (or when no function has that name).
pub fn resolve_alternate(name: &str, found: AlternateMatch) -> (r: Option<String>)
    ensures
        opt_text(r) == alternate_problem_text(name@, found),
{
    match found {
        AlternateMatch::SameFunction => {
            let mut s = String::from_str("`");
            s.append(name);
            s.append(
                "` is the guarded function itself, so substituting it would re-run the call that just faulted",
            );
            Some(s)
        },
        AlternateMatch::SignatureMismatch => {
            let mut s = String::from_str("`");
            s.append(name);
            s.append(
                "` does not have the same signature as this function, so it cannot stand in for it",
            );
            Some(s)
        },
        _ => None,
    }
}

/// A strategy read from an element carries the name it was written with:
/// the callee of a call, or the bare path.
pub proof fn law_strategy_read_keeps_its_name(e: AttrExpr, s: Strategy)
    requires
        strategy_read(e, Some(s)),
    ensures
        Some(strategy_name_of(s)@) == match e {
            AttrExpr::Call { callee, .. } => callee_name_of(callee),
            _ => path_name_of(e),
        },
{
    reveal_strlit("ReturnDefault");
    reveal_strlit("ReturnCached");
    reveal_strlit("RetryWithBackoff");
    reveal_strlit("SubstituteAlternate");
    reveal_strlit("DegradeGracefully");
    reveal_strlit("IsolateAndRestart");
    reveal_strlit("PropagateToParent");
}

} // verus!

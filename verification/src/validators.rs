//! The decisions of three body validators, over what the caller resolved
//! from a function body:
//!
//! * move checking in `@strict` functions: a `consuming` parameter may be
//!   referenced at most once in the whole body; every later reference is a
//!   use after consume (a flat count, not a flow-sensitive walk);
//! * effect obligations: every effect a callee declares must be declared by
//!   the caller too;
//! * code generation support: a generic function is reported once, and
//!   otherwise every `nil` literal is reported, since neither can be
//!   lowered yet.
use vstd::prelude::*;

verus! {

// ---------------------------------------------------------------------
// Move checking
// ---------------------------------------------------------------------

/// How many of the first `k` references name parameter `p`.
pub open spec fn uses_before(refs: Seq<Option<u32>>, p: u32, k: int) -> nat
    decreases k,
{
    if k <= 0 {
        0
    } else {
        uses_before(refs, p, k - 1) + if refs[k - 1] == Some(p) {
            1nat
        } else {
            0nat
        }
    }
}

/// Reference `i` is a use after consume: it names a consuming parameter
/// that an earlier reference already moved.
pub open spec fn use_after_consume(refs: Seq<Option<u32>>, consuming: Seq<u32>, i: int) -> bool {
    match refs[i] {
        Some(p) => consuming.contains(p) && uses_before(refs, p, i) >= 1,
        None => false,
    }
}

/// An earlier reference to `p` among the first `k` counts as a use.
proof fn lemma_uses_before_counts(refs: Seq<Option<u32>>, p: u32, j: int, k: int)
    requires
        0 <= j < k <= refs.len(),
        refs[j] == Some(p),
    ensures
        uses_before(refs, p, k) >= 1,
    decreases k,
{
    if j < k - 1 {
        lemma_uses_before_counts(refs, p, j, k - 1);
    }
}

/// With no earlier reference to `p` among the first `k`, there is no use.
proof fn lemma_uses_before_none(refs: Seq<Option<u32>>, p: u32, k: int)
    requires
        0 <= k <= refs.len(),
        forall|j: int| 0 <= j < k ==> refs[j] != Some(p),
    ensures
        uses_before(refs, p, k) == 0,
    decreases k,
{
    if k > 0 {
        lemma_uses_before_none(refs, p, k - 1);
    }
}

/// Move checking treats every consuming parameter alike, wherever it
/// stands in the consuming list: a reference to a consuming parameter is a
/// use after consume exactly when an earlier reference named the same
/// parameter; a reference to any other parameter, or to none, never is.
pub proof fn law_every_consuming_parameter_is_checked(
    refs: Seq<Option<u32>>,
    consuming: Seq<u32>,
    i: int,
)
    requires
        0 <= i < refs.len(),
    ensures
        use_after_consume(refs, consuming, i) <==> exists|q: int, j: int|
            0 <= q < consuming.len() && 0 <= j < i && refs[i] == Some(consuming[q]) && refs[j]
                == refs[i],
{
    match refs[i] {
        Some(p) => {
            if use_after_consume(refs, consuming, i) {
                let q = choose|q: int| 0 <= q < consuming.len() && consuming[q] == p;
                if forall|j: int| 0 <= j < i ==> refs[j] != Some(p) {
                    lemma_uses_before_none(refs, p, i);
                }
                let j = choose|j: int| 0 <= j < i && refs[j] == Some(p);
                assert(0 <= q < consuming.len() && 0 <= j < i && refs[i] == Some(consuming[q])
                    && refs[j] == refs[i]);
            }
            if exists|q: int, j: int|
                0 <= q < consuming.len() && 0 <= j < i && refs[i] == Some(consuming[q]) && refs[j]
                    == refs[i] {
                let (q, j) = choose|q: int, j: int|
                    0 <= q < consuming.len() && 0 <= j < i && refs[i] == Some(consuming[q])
                        && refs[j] == refs[i];
                assert(consuming.contains(p));
                lemma_uses_before_counts(refs, p, j, i);
            }
        },
        None => {},
    }
}

/// Which references are flagged depends on which parameters are
/// consuming, not on the order they are listed in: two consuming lists
/// with the same members flag the same references.
pub proof fn law_consuming_order_does_not_matter(
    refs: Seq<Option<u32>>,
    a: Seq<u32>,
    b: Seq<u32>,
    i: int,
)
    requires
        0 <= i < refs.len(),
        a.to_set() == b.to_set(),
    ensures
        use_after_consume(refs, a, i) == use_after_consume(refs, b, i),
{
    match refs[i] {
        Some(p) => {
            assert(a.contains(p) == a.to_set().contains(p));
            assert(b.contains(p) == b.to_set().contains(p));
        },
        None => {},
    }
}

/// The references, in body order, that use a consuming parameter after it
/// was moved. `refs[i]` is the parameter the `i`-th path expression of the
/// body resolves to, if it resolves to one; `consuming` lists the
/// parameters declared `consuming`. A function that is not `@strict` is not
/// checked at all.
pub fn validate_move_checking(is_strict: bool, refs: &[Option<u32>], consuming: &[u32]) -> (r: Vec<
    usize,
>)
    ensures
        !is_strict ==> r@.len() == 0,
        is_strict ==> forall|k: int| 0 <= k < r@.len() ==> r@[k] < refs@.len(),
        is_strict ==> forall|k: int, l: int| 0 <= k < l < r@.len() ==> r@[k] < r@[l],
        is_strict ==> forall|i: int|
            0 <= i < refs@.len() ==> (use_after_consume(refs@, consuming@, i) <==> r@.contains(
                i as usize,
            )),
{
    let mut flagged: Vec<usize> = Vec::new();
    if !is_strict || consuming.len() == 0 {
        proof {
            if is_strict {
                assert forall|i: int| 0 <= i < refs@.len() implies !use_after_consume(
                    refs@,
                    consuming@,
                    i,
                ) by {}
            }
        }
        return flagged;
    }
    let mut i: usize = 0;
    while i < refs.len()
        invariant
            0 <= i <= refs@.len(),
            forall|k: int| 0 <= k < flagged@.len() ==> flagged@[k] < i,
            forall|k: int, l: int| 0 <= k < l < flagged@.len() ==> flagged@[k] < flagged@[l],
            forall|j: int|
                0 <= j < i ==> (use_after_consume(refs@, consuming@, j) <==> flagged@.contains(
                    j as usize,
                )),
        decreases refs@.len() - i,
    {
        let ghost before = flagged@;
        let uac = is_use_after_consume(refs, consuming, i);
        if uac {
            flagged.push(i);
        }
        proof {
            assert forall|j: int|
                0 <= j < i + 1 implies (use_after_consume(refs@, consuming@, j)
                <==> flagged@.contains(j as usize)) by {
                if j < i {
                    if flagged@.contains(j as usize) {
                        let q = choose|q: int| 0 <= q < flagged@.len() && flagged@[q] == j as usize;
                        if q < before.len() {
                            assert(before[q] == j as usize);
                        }
                    }
                    if before.contains(j as usize) {
                        let q = choose|q: int| 0 <= q < before.len() && before[q] == j as usize;
                        assert(flagged@[q] == j as usize);
                    }
                } else {
                    if uac {
                        assert(flagged@[flagged@.len() - 1] == i);
                    } else {
                        if flagged@.contains(j as usize) {
                            let q = choose|q: int|
                                0 <= q < flagged@.len() && flagged@[q] == j as usize;
                        }
                    }
                }
            }
        }
        i = i + 1;
    }
    flagged
}

/// Whether reference `i` uses a consuming parameter after it was moved.
fn is_use_after_consume(refs: &[Option<u32>], consuming: &[u32], i: usize) -> (b: bool)
    requires
        i < refs@.len(),
    ensures
        b == use_after_consume(refs@, consuming@, i as int),
{
    match refs[i] {
        None => false,
        Some(p) => {
            let mut is_consuming = false;
            let mut c: usize = 0;
            while c < consuming.len()
                invariant
                    0 <= c <= consuming@.len(),
                    is_consuming <==> exists|q: int| 0 <= q < c && consuming@[q] == p,
                decreases consuming@.len() - c,
            {
                if consuming[c] == p {
                    is_consuming = true;
                }
                c = c + 1;
            }
            if !is_consuming {
                proof {
                    assert(!consuming@.contains(p));
                }
                return false;
            }
            let mut earlier = false;
            let mut k: usize = 0;
            while k < i
                invariant
                    0 <= k <= i < refs@.len(),
                    earlier <==> uses_before(refs@, p, k as int) >= 1,
                decreases i - k,
            {
                match refs[k] {
                    Some(q) => {
                        if q == p {
                            earlier = true;
                        }
                    },
                    None => {},
                }
                k = k + 1;
            }
            earlier
        },
    }
}

// ---------------------------------------------------------------------
// Effect obligations
// ---------------------------------------------------------------------

/// One resolved call of a body: its position and the effects the callee
/// declares.
pub struct ResolvedCall {
    /// The position of the call expression in the body.
    pub expr: usize,
    /// The callee's declared effects.
    pub effects: Vec<String>,
}

/// The undeclared effects of calls `0..k`, in order: for each call, each of
/// its callee's effects the caller does not declare, with the call's
/// position.
pub open spec fn undeclared(caller: Seq<Seq<char>>, calls: Seq<(usize, Seq<Seq<char>>)>) -> Seq<
    (usize, Seq<char>),
>
    decreases calls.len(),
{
    if calls.len() == 0 {
        Seq::empty()
    } else {
        let last = calls.last();
        undeclared(caller, calls.drop_last()) + missing_of(caller, last.0, last.1)
    }
}

/// The effects of one call the caller does not declare.
pub open spec fn missing_of(caller: Seq<Seq<char>>, expr: usize, effects: Seq<Seq<char>>) -> Seq<
    (usize, Seq<char>),
>
    decreases effects.len(),
{
    if effects.len() == 0 {
        Seq::empty()
    } else {
        let e = effects.last();
        let rest = missing_of(caller, expr, effects.drop_last());
        if caller.contains(e) {
            rest
        } else {
            rest.push((expr, e))
        }
    }
}

/// The texts of a list of strings.
pub open spec fn string_texts(v: Seq<String>) -> Seq<Seq<char>> {
    v.map_values(|s: String| s@)
}

/// The calls by their texts.
pub open spec fn call_texts(calls: Seq<ResolvedCall>) -> Seq<(usize, Seq<Seq<char>>)> {
    calls.map_values(|c: ResolvedCall| (c.expr, string_texts(c.effects@)))
}

/// A finding by its texts.
pub open spec fn finding_text(p: (usize, String)) -> (usize, Seq<char>) {
    (p.0, p.1@)
}

/// The findings by their texts.
pub open spec fn findings_text(v: Seq<(usize, String)>) -> Seq<(usize, Seq<char>)> {
    v.map_values(|p: (usize, String)| finding_text(p))
}

/// Whether `name` is among `names`.
fn contains_text(names: &Vec<String>, name: &String) -> (b: bool)
    ensures
        b == string_texts(names@).contains(name@),
{
    let mut i: usize = 0;
    while i < names.len()
        invariant
            0 <= i <= names@.len(),
            forall|j: int| 0 <= j < i ==> names@[j]@ != name@,
        decreases names@.len() - i,
    {
        if names[i] == *name {
            assert(string_texts(names@)[i as int] == name@);
            return true;
        }
        i = i + 1;
    }
    proof {
        if string_texts(names@).contains(name@) {
            let k = choose|k: int|
                0 <= k < string_texts(names@).len() && string_texts(names@)[k] == name@;
            assert(names@[k]@ == name@);
        }
    }
    false
}

/// Every (call position, effect) pair where a resolved call's callee
/// declares an effect that the caller's `uses` clause lacks.
pub fn validate_effect_obligations(caller_effects: &Vec<String>, calls: &Vec<ResolvedCall>) -> (r:
    Vec<(usize, String)>)
    ensures
        findings_text(r@) == undeclared(
            string_texts(caller_effects@),
            call_texts(calls@),
        ),
{
    let mut out: Vec<(usize, String)> = Vec::new();
    let mut i: usize = 0;
    while i < calls.len()
        invariant
            0 <= i <= calls@.len(),
            findings_text(out@) == undeclared(
                string_texts(caller_effects@),
                call_texts(calls@.take(i as int)),
            ),
        decreases calls@.len() - i,
    {
        let call = &calls[i];
        let ghost before = findings_text(out@);
        let mut k: usize = 0;
        while k < call.effects.len()
            invariant
                0 <= k <= call.effects@.len(),
                findings_text(out@) == before + missing_of(
                    string_texts(caller_effects@),
                    call.expr,
                    string_texts(call.effects@.take(k as int)),
                ),
            decreases call.effects@.len() - k,
        {
            proof {
                assert(string_texts(call.effects@.take(k + 1)).drop_last() =~= string_texts(
                    call.effects@.take(k as int),
                ));
                assert(string_texts(call.effects@.take(k + 1)).last() == call.effects@[k as int]@);
            }
            let effect = &call.effects[k];
            if !contains_text(caller_effects, effect) {
                let ghost prev = out@;
                let copy = effect.clone();
                out.push((call.expr, copy));
                proof {
                    assert(findings_text(out@) =~= findings_text(prev).push((call.expr, effect@)));
                    assert(findings_text(out@) =~= before + missing_of(
                        string_texts(caller_effects@),
                        call.expr,
                        string_texts(call.effects@.take(k + 1)),
                    ));
                }
            }
            k = k + 1;
        }
        proof {
            assert(call.effects@.take(k as int) =~= call.effects@);
            assert(call_texts(calls@.take(i + 1)).drop_last() =~= call_texts(calls@.take(i as int)));
            assert(call_texts(calls@.take(i + 1)).last() == (
                call.expr,
                string_texts(call.effects@),
            ));
        }
        i = i + 1;
    }
    proof {
        assert(calls@.take(i as int) =~= calls@);
    }
    out
}

// ---------------------------------------------------------------------
// Code generation support
// ---------------------------------------------------------------------

/// What the code-generation check sees of a type.
#[derive(Debug)]
pub enum TyShape {
    /// A generic type parameter, with its display text.
    TypeParam(String),
    /// An array of the element type.
    Array(Box<TyShape>),
    /// A tuple of the element types.
    Tuple(Vec<TyShape>),
    /// Any other type.
    Other,
}

/// Whether a type is, or contains, a generic type parameter.
pub open spec fn has_type_param(t: TyShape) -> bool
    decreases t,
{
    match t {
        TyShape::TypeParam(_) => true,
        TyShape::Array(e) => has_type_param(*e),
        TyShape::Tuple(elems) => exists|i: int|
            0 <= i < elems@.len() && has_type_param(#[trigger] elems@[i]),
        TyShape::Other => false,
    }
}

/// Whether `ty` is, or contains, a generic type parameter.
pub fn contains_type_parameter(ty: &TyShape) -> (b: bool)
    ensures
        b == has_type_param(*ty),
    decreases ty,
{
    match ty {
        TyShape::TypeParam(_) => true,
        TyShape::Array(element) => contains_type_parameter(element),
        TyShape::Tuple(elems) => {
            let mut i: usize = 0;
            while i < elems.len()
                invariant
                    0 <= i <= elems@.len(),
                    *ty == TyShape::Tuple(*elems),
                    forall|j: int| 0 <= j < i ==> !has_type_param(#[trigger] elems@[j]),
                decreases elems@.len() - i,
            {
                assert(decreases_to!(*elems => elems@));
                assert(decreases_to!(elems@ => elems@[i as int]));
                assert(decreases_to!(*ty => (*ty)->0));
                assert((*ty)->0 == *elems);
                if contains_type_parameter(&elems[i]) {
                    return true;
                }
                i = i + 1;
            }
            false
        },
        TyShape::Other => false,
    }
}

/// The first type in `sig` (receiver, parameters, return type) that holds
/// a type parameter.
pub fn first_type_parameter(sig: &Vec<TyShape>) -> (r: Option<usize>)
    ensures
        match r {
            Some(i) => i < sig@.len() && has_type_param(sig@[i as int]) && forall|j: int|
                0 <= j < i ==> !has_type_param(#[trigger] sig@[j]),
            None => forall|j: int| 0 <= j < sig@.len() ==> !has_type_param(#[trigger] sig@[j]),
        },
{
    let mut i: usize = 0;
    while i < sig.len()
        invariant
            0 <= i <= sig@.len(),
            forall|j: int| 0 <= j < i ==> !has_type_param(#[trigger] sig@[j]),
        decreases sig@.len() - i,
    {
        if contains_type_parameter(&sig[i]) {
            return Some(i);
        }
        i = i + 1;
    }
    None
}

/// The kinds of literal a body holds.
#[derive(Debug, Clone, Copy, PartialEq, Eq, Structural)]
pub enum LiteralKind {
    Nil,
    String,
    Bool,
    Int,
    Float,
}

/// A construct the code generator cannot lower yet.
#[derive(Debug, PartialEq, Eq)]
pub enum CodegenGap {
    /// The function is generic; `what` and `because` explain it.
    GenericFunction { what: String, because: String },
    /// The literal at `expr` cannot be lowered.
    Literal { expr: usize, what: String, because: String },
}

/// The reason given for a generic function.
pub open spec fn generic_because() -> Seq<char> {
    "monomorphisation is not implemented yet, so there is no concrete type to generate code for"@
}

/// The reason given for `nil`.
pub open spec fn nil_because() -> Seq<char> {
    "`Type?` optionals lower transparently to their base type, so there is no null representation for `nil` to produce"@
}

/// The positions of the `nil` literals among `lits`, in order.
pub open spec fn nil_positions(lits: Seq<(usize, LiteralKind)>) -> Seq<usize>
    decreases lits.len(),
{
    if lits.len() == 0 {
        Seq::empty()
    } else {
        let rest = nil_positions(lits.drop_last());
        if lits.last().1 == LiteralKind::Nil {
            rest.push(lits.last().0)
        } else {
            rest
        }
    }
}

/// The constructs of a function the code generator cannot lower: its
/// signature `sig` (receiver, parameters, return type) and the literals of
/// its body (position and kind). A generic function is reported once, by
/// the display text of its first type parameter (`param_text`), and
/// nothing else is reported; otherwise each `nil` literal is.
pub fn validate_codegen_support(
    sig: &Vec<TyShape>,
    param_text: &str,
    literals: &Vec<(usize, LiteralKind)>,
) -> (r: Vec<CodegenGap>)
    ensures
        (exists|j: int| 0 <= j < sig@.len() && has_type_param(#[trigger] sig@[j])) ==> {
            &&& r@.len() == 1
            &&& r@[0] matches CodegenGap::GenericFunction { what, because }
            &&& what@ == "a generic function (`"@ + param_text@ + "` is not instantiated)"@
            &&& because@ == generic_because()
        },
        !(exists|j: int| 0 <= j < sig@.len() && has_type_param(#[trigger] sig@[j])) ==> {
            &&& r@.len() == nil_positions(literals@).len()
            &&& forall|k: int|
                0 <= k < r@.len() ==> (#[trigger] r@[k] matches CodegenGap::Literal {
                    expr,
                    what,
                    because,
                } && expr == nil_positions(literals@)[k] && what@ == "`nil`"@ && because@
                    == nil_because())
        },
{
    let mut gaps: Vec<CodegenGap> = Vec::new();
    if let Some(_) = first_type_parameter(sig) {
        let mut what = String::from_str("a generic function (`");
        what.append(param_text);
        what.append("` is not instantiated)");
        gaps.push(
            CodegenGap::GenericFunction {
                what,
                because: String::from_str(
                    "monomorphisation is not implemented yet, so there is no concrete type to generate code for",
                ),
            },
        );
        return gaps;
    }
    let mut i: usize = 0;
    while i < literals.len()
        invariant
            0 <= i <= literals@.len(),
            gaps@.len() == nil_positions(literals@.take(i as int)).len(),
            forall|k: int|
                0 <= k < gaps@.len() ==> (#[trigger] gaps@[k] matches CodegenGap::Literal {
                    expr,
                    what,
                    because,
                } && expr == nil_positions(literals@.take(i as int))[k] && what@ == "`nil`"@
                    && because@ == nil_because()),
        decreases literals@.len() - i,
    {
        proof {
            assert(literals@.take(i + 1).drop_last() =~= literals@.take(i as int));
            assert(literals@.take(i + 1).last() == literals@[i as int]);
        }
        let (expr, kind) = literals[i];
        if kind == LiteralKind::Nil {
            gaps.push(
                CodegenGap::Literal {
                    expr,
                    what: String::from_str("`nil`"),
                    because: String::from_str(
                        "`Type?` optionals lower transparently to their base type, so there is no null representation for `nil` to produce",
                    ),
                },
            );
        }
        i = i + 1;
    }
    proof {
        assert(literals@.take(i as int) =~= literals@);
    }
    gaps
}

} // verus!

//! Small value types of the item tree: the flags of a function, the
//! visibility of an item, the shape of a struct and ranges of arena ids;
//! and the checks made over a module's top-level items once they are
//! lowered: names defined twice, and module-level bindings that depend on
//! one another in a cycle.
use crate::const_cycles::{cycles_of, dependency_graph, detect_const_cycles, ConstDecl};
use vstd::prelude::*;

verus! {

/// Additional information about a function, as a set of bits.
#[derive(Debug, Clone, Copy, PartialEq, Eq, Structural)]
pub struct FunctionFlags {
    pub bits: u8,
}

impl FunctionFlags {
    /// The function has a self parameter.
    pub const HAS_SELF_PARAM: u8 = 1;
    /// The function has a body.
    pub const HAS_BODY: u8 = 2;
    /// The function is extern.
    pub const IS_EXTERN: u8 = 4;
    /// The function is a compiler intrinsic.
    pub const IS_INTRINSIC: u8 = 8;

    /// Whether every bit of `flag` is set.
    pub open spec fn has(self, flag: u8) -> bool {
        self.bits & flag == flag
    }

    /// No flag set.
    pub fn empty() -> (f: Self)
        ensures
            f.bits == 0,
    {
        FunctionFlags { bits: 0 }
    }

    /// These flags with the bits of `flag` set as well.
    pub fn with(self, flag: u8) -> (f: Self)
        ensures
            f.bits == self.bits | flag,
    {
        FunctionFlags { bits: self.bits | flag }
    }

    /// Whether every bit of `flag` is set.
    pub fn contains(self, flag: u8) -> (b: bool)
        ensures
            b == self.has(flag),
    {
        self.bits & flag == flag
    }

    /// Whether the function has a self parameter.
    pub fn has_self_param(self) -> (b: bool)
        ensures
            b == self.has(Self::HAS_SELF_PARAM),
    {
        self.contains(Self::HAS_SELF_PARAM)
    }

    /// Whether the function has a body.
    pub fn has_body(self) -> (b: bool)
        ensures
            b == self.has(Self::HAS_BODY),
    {
        self.contains(Self::HAS_BODY)
    }

    /// Whether the function is extern.
    pub fn is_extern(self) -> (b: bool)
        ensures
            b == self.has(Self::IS_EXTERN),
    {
        self.contains(Self::IS_EXTERN)
    }

    /// Whether the function is a compiler intrinsic, declared in an
    /// `extern "codira-intrinsic"` block and lowered to inline code at the
    /// call site.
    pub fn is_intrinsic(self) -> (b: bool)
        ensures
            b == self.has(Self::IS_INTRINSIC),
    {
        self.contains(Self::IS_INTRINSIC)
    }
}

/// Setting one flag leaves the others as they were, and each flag is read
/// back as set.
pub proof fn law_flags_are_independent(f: FunctionFlags, a: u8, b: u8)
    requires
        a == FunctionFlags::HAS_SELF_PARAM || a == FunctionFlags::HAS_BODY || a
            == FunctionFlags::IS_EXTERN || a == FunctionFlags::IS_INTRINSIC,
        b == FunctionFlags::HAS_SELF_PARAM || b == FunctionFlags::HAS_BODY || b
            == FunctionFlags::IS_EXTERN || b == FunctionFlags::IS_INTRINSIC,
    ensures
        (FunctionFlags { bits: f.bits | a }).has(a),
        a != b ==> ((FunctionFlags { bits: f.bits | a }).has(b) <==> f.has(b)),
{
    let x = f.bits;
    assert((x | 1u8) & 1u8 == 1u8) by (bit_vector);
    assert((x | 2u8) & 2u8 == 2u8) by (bit_vector);
    assert((x | 4u8) & 4u8 == 4u8) by (bit_vector);
    assert((x | 8u8) & 8u8 == 8u8) by (bit_vector);
    assert(((x | 1u8) & 2u8 == 2u8) == (x & 2u8 == 2u8)) by (bit_vector);
    assert(((x | 1u8) & 4u8 == 4u8) == (x & 4u8 == 4u8)) by (bit_vector);
    assert(((x | 1u8) & 8u8 == 8u8) == (x & 8u8 == 8u8)) by (bit_vector);
    assert(((x | 2u8) & 1u8 == 1u8) == (x & 1u8 == 1u8)) by (bit_vector);
    assert(((x | 2u8) & 4u8 == 4u8) == (x & 4u8 == 4u8)) by (bit_vector);
    assert(((x | 2u8) & 8u8 == 8u8) == (x & 8u8 == 8u8)) by (bit_vector);
    assert(((x | 4u8) & 1u8 == 1u8) == (x & 1u8 == 1u8)) by (bit_vector);
    assert(((x | 4u8) & 2u8 == 2u8) == (x & 2u8 == 2u8)) by (bit_vector);
    assert(((x | 4u8) & 8u8 == 8u8) == (x & 8u8 == 8u8)) by (bit_vector);
    assert(((x | 8u8) & 1u8 == 1u8) == (x & 1u8 == 1u8)) by (bit_vector);
    assert(((x | 8u8) & 2u8 == 2u8) == (x & 2u8 == 2u8)) by (bit_vector);
    assert(((x | 8u8) & 4u8 == 4u8) == (x & 4u8 == 4u8)) by (bit_vector);
}

/// The visibility of an item: an index into the tree's visibilities, or
/// one of four reserved values at the top of the range.
#[derive(Debug, Clone, Copy, PartialEq, Eq, Structural)]
pub struct RawVisibilityId(pub u32);

impl RawVisibilityId {
    /// `pub`.
    pub fn public() -> (v: Self)
        ensures
            v.0 == 4294967295u32,
    {
        RawVisibilityId(4294967295u32)
    }

    /// `pub(self)`, private to the module.
    pub fn private() -> (v: Self)
        ensures
            v.0 == 4294967294u32,
    {
        RawVisibilityId(4294967294u32)
    }

    /// `pub(package)`.
    pub fn public_package() -> (v: Self)
        ensures
            v.0 == 4294967293u32,
    {
        RawVisibilityId(4294967293u32)
    }

    /// `pub(super)`.
    pub fn public_super() -> (v: Self)
        ensures
            v.0 == 4294967292u32,
    {
        RawVisibilityId(4294967292u32)
    }

    /// The source spelling of a reserved visibility.
    pub open spec fn reserved_label(self) -> Option<Seq<char>> {
        if self.0 == 4294967295u32 {
            Some("pub"@)
        } else if self.0 == 4294967294u32 {
            Some("pub(self)"@)
        } else if self.0 == 4294967293u32 {
            Some("pub(package)"@)
        } else if self.0 == 4294967292u32 {
            Some("pub(super)"@)
        } else {
            None
        }
    }

    /// The debug rendering: `RawVisibilityId("pub")` and the like for the
    /// reserved values, `RawVisibilityId(n)` for an index.
    pub fn debug_text(&self) -> (s: String)
        ensures
            s@ == "RawVisibilityId("@ + match self.reserved_label() {
                Some(l) => "\""@ + l + "\""@,
                None => crate::text::decimal(self.0 as nat),
            } + ")"@,
    {
        let mut s = String::from_str("RawVisibilityId(");
        if self.0 == 4294967295u32 {
            s.append("\"pub\"");
        } else if self.0 == 4294967294u32 {
            s.append("\"pub(self)\"");
        } else if self.0 == 4294967293u32 {
            s.append("\"pub(package)\"");
        } else if self.0 == 4294967292u32 {
            s.append("\"pub(super)\"");
        } else {
            let digits = crate::text::u64_decimal(self.0 as u64);
            s.append(digits.as_str());
        }
        s.append(")");
        proof {
            reveal_strlit("\"");
            reveal_strlit("\"pub\"");
            reveal_strlit("pub");
            reveal_strlit("\"pub(self)\"");
            reveal_strlit("pub(self)");
            reveal_strlit("\"pub(package)\"");
            reveal_strlit("pub(package)");
            reveal_strlit("\"pub(super)\"");
            reveal_strlit("pub(super)");
        }
        s
    }
}

/// The form of a struct declaration.
#[derive(Debug, Clone, Copy, PartialEq, Eq, Structural)]
pub enum StructDefKind {
    /// `struct S { ... }`
    Record,
    /// `struct S(...);`
    Tuple,
    /// `struct S;`
    Unit,
}

/// A half-open range of raw arena ids, `start..end`.
#[derive(Debug, Clone, Copy, PartialEq, Eq, Structural)]
pub struct IdRange {
    pub start: u32,
    pub end: u32,
}

impl IdRange {
    /// The ids `start..end`.
    pub fn new(start: u32, end: u32) -> (r: Self)
        ensures
            r.start == start,
            r.end == end,
    {
        IdRange { start, end }
    }

    /// Whether the range holds no id.
    pub fn is_empty(&self) -> (b: bool)
        ensures
            b == (self.end <= self.start),
    {
        !(self.start < self.end)
    }

    /// Takes the next id off the front of the range.
    pub fn next_id(&mut self) -> (r: Option<u32>)
        ensures
            old(self).start < old(self).end ==> r == Some(old(self).start) && final(self).start
                == old(self).start + 1 && final(self).end == old(self).end,
            old(self).start >= old(self).end ==> r is None && *final(self) == *old(self),
    {
        if self.start < self.end {
            let id = self.start;
            self.start = self.start + 1;
            Some(id)
        } else {
            None
        }
    }
}


// ---------------------------------------------------------------------
// Checks over a module's top-level items
// ---------------------------------------------------------------------

/// A top-level item of a module: its kind and its position among the items
/// of that kind.
#[derive(Debug, Clone, Copy, PartialEq, Eq, Structural)]
pub enum ModItem {
    Function(usize),
    Struct(usize),
    TypeAlias(usize),
    Import(usize),
    Const(usize),
    Impl(usize),
}

/// A problem found among a module's top-level items.
#[derive(Debug)]
pub enum ItemTreeDiagnostic {
    /// `second` defines the name `first` already defined.
    DuplicateDefinition { name: String, first: ModItem, second: ModItem },
    /// Module-level bindings that depend on one another in a cycle, with
    /// their names in the same order.
    CyclicConstDefinition { items: Vec<ModItem>, names: Vec<String> },
}

/// The position of the first of the first `k` items that defines `name`.
pub open spec fn first_defining(defined: Seq<Option<String>>, name: Seq<char>, k: int) -> Option<int>
    decreases k,
{
    if k <= 0 {
        None
    } else {
        match first_defining(defined, name, k - 1) {
            Some(i) => Some(i),
            None => if defined[k - 1] is Some && defined[k - 1]->Some_0@ == name {
                Some(k - 1)
            } else {
                None
            },
        }
    }
}

/// The duplicate definitions among the first `k` items, in order: each
/// item defining a name an earlier item defined, with the name and that
/// earlier item's first definition.
pub open spec fn duplicates(top: Seq<ModItem>, defined: Seq<Option<String>>, k: int) -> Seq<
    (Seq<char>, ModItem, ModItem),
>
    decreases k,
{
    if k <= 0 {
        Seq::empty()
    } else {
        let prev = duplicates(top, defined, k - 1);
        match defined[k - 1] {
            Some(name) => match first_defining(defined, name@, k - 1) {
                Some(i) => prev.push((name@, top[i], top[k - 1])),
                None => prev,
            },
            None => prev,
        }
    }
}

/// The positions, among the module's bindings, of the first `k` top-level
/// items that are bindings.
pub open spec fn top_const_ids(top: Seq<ModItem>, k: int) -> Seq<usize>
    decreases k,
{
    if k <= 0 {
        Seq::empty()
    } else {
        let prev = top_const_ids(top, k - 1);
        match top[k - 1] {
            ModItem::Const(i) => prev.push(i),
            _ => prev,
        }
    }
}

/// The top-level bindings, in order.
pub open spec fn top_consts(top: Seq<ModItem>, consts: Seq<ConstDecl>) -> Seq<ConstDecl> {
    let ids = top_const_ids(top, top.len() as int);
    Seq::new(ids.len(), |i: int| consts[ids[i] as int])
}

/// A diagnostic as a value.
pub enum DiagnosticView {
    Duplicate(Seq<char>, ModItem, ModItem),
    Cycle(Seq<ModItem>, Seq<Seq<char>>),
}

pub open spec fn diagnostic_view(d: ItemTreeDiagnostic) -> DiagnosticView {
    match d {
        ItemTreeDiagnostic::DuplicateDefinition { name, first, second } => DiagnosticView::Duplicate(
            name@,
            first,
            second,
        ),
        ItemTreeDiagnostic::CyclicConstDefinition { items, names } => DiagnosticView::Cycle(
            items@,
            names@.map_values(|n: String| n@),
        ),
    }
}

/// The diagnostics `ds` from position `start` on report, in order, the
/// cycles `ms` among the top-level bindings `ids` (positions among the
/// bindings `consts`): each the bindings of one cycle, by their items and
/// names.
pub open spec fn reports_cycles(
    ds: Seq<ItemTreeDiagnostic>,
    start: int,
    ms: Seq<Seq<usize>>,
    ids: Seq<usize>,
    consts: Seq<ConstDecl>,
) -> bool {
    &&& ds.len() == start + ms.len()
    &&& forall|j: int|
        0 <= j < ms.len() ==> match #[trigger] ds[start + j] {
            ItemTreeDiagnostic::CyclicConstDefinition { items, names } => {
                &&& items@.len() == ms[j].len() && names@.len() == ms[j].len()
                &&& forall|i: int|
                    0 <= i < ms[j].len() ==> #[trigger] items@[i] == ModItem::Const(ids[ms[j][i] as int])
                        && names@[i]@ == consts[ids[ms[j][i] as int] as int].name@
            },
            _ => false,
        }
}

proof fn lemma_first_defining(defined: Seq<Option<String>>, name: Seq<char>, k: int)
    ensures
        first_defining(defined, name, k) matches Some(i) ==> 0 <= i < k && defined[i] is Some
            && defined[i]->Some_0@ == name,
        first_defining(defined, name, k) is None ==> forall|i: int|
            0 <= i < k ==> !(defined[i] is Some && defined[i]->Some_0@ == name),
    decreases k,
{
    if k > 0 {
        lemma_first_defining(defined, name, k - 1);
    }
}

/// A binding with the same name and references.
fn copy_decl(c: &ConstDecl) -> (d: ConstDecl)
    ensures
        d.name == c.name,
        d.references@ == c.references@,
{
    let mut refs: Vec<String> = Vec::new();
    let mut i: usize = 0;
    while i < c.references.len()
        invariant
            0 <= i <= c.references@.len(),
            refs@ == c.references@.take(i as int),
        decreases c.references@.len() - i,
    {
        refs.push(c.references[i].clone());
        proof {
            assert(refs@ =~= c.references@.take(i + 1));
        }
        i = i + 1;
    }
    proof {
        assert(refs@ =~= c.references@);
    }
    ConstDecl { name: c.name.clone(), references: refs }
}

/// The problems among a module's top-level items `top`, item `k` defining
/// the name `defined[k]` (none for impls and glob imports) and each binding
/// `Const(i)` standing for `consts[i]`: first every item defining a name
/// already defined, in order, then every cycle among the top-level
/// bindings.
pub fn module_diagnostics(top: &Vec<ModItem>, defined: &Vec<Option<String>>, consts: &Vec<ConstDecl>) -> (r: Vec<
    ItemTreeDiagnostic,
>)
    requires
        defined@.len() == top@.len(),
        forall|k: int| 0 <= k < top@.len() && #[trigger] top@[k] is Const ==> top@[k]->Const_0 < consts@.len(),
    ensures
        ({
            let dups = duplicates(top@, defined@, top@.len() as int);
            let ids = top_const_ids(top@, top@.len() as int);
            &&& forall|j: int| 0 <= j < dups.len() ==> diagnostic_view(#[trigger] r@[j]) == DiagnosticView::Duplicate(
                dups[j].0,
                dups[j].1,
                dups[j].2,
            )
            &&& exists|ms: Seq<Seq<usize>>|
                #![trigger cycles_of(dependency_graph(top_consts(top@, consts@)), ms)]
                cycles_of(dependency_graph(top_consts(top@, consts@)), ms) && reports_cycles(
                    r@,
                    dups.len() as int,
                    ms,
                    ids,
                    consts@,
                )
        }),
{
    let ghost dups_all = duplicates(top@, defined@, top@.len() as int);
    let mut r: Vec<ItemTreeDiagnostic> = Vec::new();
    let mut seen: Vec<(String, ModItem)> = Vec::new();
    let mut ids: Vec<usize> = Vec::new();
    let mut k: usize = 0;
    while k < top.len()
        invariant
            0 <= k <= top@.len(),
            defined@.len() == top@.len(),
            forall|kk: int| 0 <= kk < top@.len() && #[trigger] top@[kk] is Const ==> top@[kk]->Const_0 < consts@.len(),
            r@.len() == duplicates(top@, defined@, k as int).len(),
            forall|j: int| 0 <= j < r@.len() ==> diagnostic_view(#[trigger] r@[j]) == DiagnosticView::Duplicate(
                duplicates(top@, defined@, k as int)[j].0,
                duplicates(top@, defined@, k as int)[j].1,
                duplicates(top@, defined@, k as int)[j].2,
            ),
            forall|q: int| 0 <= q < seen@.len() ==> (#[trigger] first_defining(defined@, seen@[q].0@, k as int)
                matches Some(i) && seen@[q].1 == top@[i]),
            forall|name: Seq<char>| #[trigger] first_defining(defined@, name, k as int) is Some ==> exists|q: int|
                0 <= q < seen@.len() && #[trigger] seen@[q].0@ == name,
            ids@ == top_const_ids(top@, k as int),
            forall|i: int| 0 <= i < ids@.len() ==> #[trigger] ids@[i] < consts@.len(),
        decreases top@.len() - k,
    {
        let ghost r0 = r@;
        let ghost seen0 = seen@;
        match &defined[k] {
            Some(name) => {
                let mut q: usize = 0;
                let mut hit: Option<ModItem> = None;
                while q < seen.len() && hit.is_none()
                    invariant
                        0 <= q <= seen@.len(),
                        hit is None ==> forall|q2: int| 0 <= q2 < q ==> #[trigger] seen@[q2].0@ != name@,
                        hit matches Some(it) ==> exists|q2: int|
                            0 <= q2 < seen@.len() && seen@[q2].0@ == name@ && seen@[q2].1 == it,
                    decreases seen@.len() - q + if hit is None { 1int } else { 0int },
                {
                    if crate::text::str_eq(seen[q].0.as_str(), name.as_str()) {
                        hit = Some(seen[q].1);
                    } else {
                        q = q + 1;
                    }
                }
                match hit {
                    Some(first) => {
                        let ghost q2 = choose|q2: int|
                            0 <= q2 < seen@.len() && seen@[q2].0@ == name@ && seen@[q2].1 == first;
                        proof {
                            assert(first_defining(defined@, seen@[q2].0@, k as int) is Some);
                        }
                        r.push(ItemTreeDiagnostic::DuplicateDefinition {
                            name: name.clone(),
                            first,
                            second: top[k],
                        });
                        proof {
                            assert forall|name2: Seq<char>| #[trigger] first_defining(defined@, name2, k as int)
                                == first_defining(defined@, name2, k + 1) by {}
                            assert forall|j: int| 0 <= j < r@.len() implies diagnostic_view(#[trigger] r@[j])
                                == DiagnosticView::Duplicate(
                                duplicates(top@, defined@, k + 1)[j].0,
                                duplicates(top@, defined@, k + 1)[j].1,
                                duplicates(top@, defined@, k + 1)[j].2,
                            ) by {
                                if j < r0.len() {
                                    assert(r@[j] == r0[j]);
                                }
                            }
                        }
                    },
                    None => {
                        proof {
                            if first_defining(defined@, name@, k as int) is Some {
                                let q2 = choose|q2: int| 0 <= q2 < seen@.len() && #[trigger] seen@[q2].0@ == name@;
                                assert(false);
                            }
                        }
                        seen.push((name.clone(), top[k]));
                        proof {
                            assert(seen@.len() == seen0.len() + 1);
                            assert(seen@[seen0.len() as int].0@ == name@);
                            assert(seen@[seen0.len() as int].1 == top@[k as int]);
                            assert(forall|q: int| 0 <= q < seen0.len() ==> seen@[q] == seen0[q]);
                            assert(first_defining(defined@, name@, k + 1) == Some(k as int));
                            assert forall|j: int| 0 <= j < r@.len() implies diagnostic_view(#[trigger] r@[j])
                                == DiagnosticView::Duplicate(
                                duplicates(top@, defined@, k + 1)[j].0,
                                duplicates(top@, defined@, k + 1)[j].1,
                                duplicates(top@, defined@, k + 1)[j].2,
                            ) by {}
                        }
                    },
                }
            },
            None => {
                proof {
                    assert forall|name2: Seq<char>| #[trigger] first_defining(defined@, name2, k as int)
                        == first_defining(defined@, name2, k + 1) by {}
                }
            },
        }
        match top[k] {
            ModItem::Const(i) => {
                ids.push(i);
            },
            _ => {},
        }
        proof {
            assert(ids@ =~= top_const_ids(top@, k + 1));
            assert forall|x: Seq<char>|
                !(defined@[k as int] is Some && defined@[k as int]->Some_0@ == x) implies #[trigger] first_defining(
                defined@,
                x,
                k + 1,
            ) == first_defining(defined@, x, k as int) by {}
            assert forall|q: int| 0 <= q < seen@.len() implies (#[trigger] first_defining(
                defined@,
                seen@[q].0@,
                k + 1,
            ) matches Some(i) && seen@[q].1 == top@[i]) by {
                if q < seen0.len() {
                    assert(seen@[q] == seen0[q]);
                    assert(first_defining(defined@, seen0[q].0@, k as int) is Some);
                }
            }
            assert forall|name2: Seq<char>| #[trigger] first_defining(defined@, name2, k + 1) is Some implies exists|q: int|
                0 <= q < seen@.len() && #[trigger] seen@[q].0@ == name2 by {
                if first_defining(defined@, name2, k as int) is Some {
                    let q = choose|q: int| 0 <= q < seen0.len() && #[trigger] seen0[q].0@ == name2;
                    assert(seen@[q] == seen0[q]);
                } else {
                    assert(seen@.len() == seen0.len() + 1);
                    assert(seen@[seen0.len() as int].0@ == name2);
                }
            }
        }
        k = k + 1;
    }
    // The top-level bindings, copied in order.
    let ghost n_dups = r@.len() as int;
    let mut tc: Vec<ConstDecl> = Vec::new();
    let mut i: usize = 0;
    while i < ids.len()
        invariant
            0 <= i <= ids@.len(),
            ids@ == top_const_ids(top@, top@.len() as int),
            forall|i2: int| 0 <= i2 < ids@.len() ==> #[trigger] ids@[i2] < consts@.len(),
            tc@.len() == i,
            forall|i2: int| 0 <= i2 < i ==> (#[trigger] tc@[i2]).name == consts@[ids@[i2] as int].name
                && tc@[i2].references@ == consts@[ids@[i2] as int].references@,
        decreases ids@.len() - i,
    {
        tc.push(copy_decl(&consts[ids[i]]));
        i = i + 1;
    }
    proof {
        let tcs = top_consts(top@, consts@);
        assert(crate::const_cycles::names_of(tc@) =~= crate::const_cycles::names_of(tcs));
        assert(dependency_graph(tc@) =~= dependency_graph(tcs));
    }
    let cycles = detect_const_cycles(&tc);
    let ghost ms = crate::const_cycles::cycle_members(cycles@);
    let ghost g = dependency_graph(tc@);
    proof {
        assert forall|j: int, i2: int| 0 <= j < ms.len() && 0 <= i2 < ms[j].len() implies #[trigger] ms[j][i2] < ids@.len() by {
            assert(crate::const_cycles::is_component(g, ms[j]));
        }
    }
    let mut c: usize = 0;
    while c < cycles.len()
        invariant
            0 <= c <= cycles@.len(),
            ms == crate::const_cycles::cycle_members(cycles@),
            n_dups == duplicates(top@, defined@, top@.len() as int).len(),
            r@.len() == n_dups + c,
            forall|j: int| 0 <= j < n_dups ==> diagnostic_view(#[trigger] r@[j]) == DiagnosticView::Duplicate(
                duplicates(top@, defined@, top@.len() as int)[j].0,
                duplicates(top@, defined@, top@.len() as int)[j].1,
                duplicates(top@, defined@, top@.len() as int)[j].2,
            ),
            forall|j: int, i2: int| 0 <= j < ms.len() && 0 <= i2 < ms[j].len() ==> #[trigger] ms[j][i2] < ids@.len(),
            forall|j: int| 0 <= j < cycles@.len() ==> (#[trigger] cycles@[j]).names@.len() == cycles@[j].members@.len(),
            forall|j: int, i2: int|
                0 <= j < cycles@.len() && 0 <= i2 < cycles@[j].members@.len() ==> #[trigger] cycles@[j].names@[i2]@
                    == tc@[cycles@[j].members@[i2] as int].name@,
            forall|i2: int| 0 <= i2 < ids@.len() ==> (#[trigger] tc@[i2]).name == consts@[ids@[i2] as int].name,
            tc@.len() == ids@.len(),
            reports_cycles(r@, n_dups, ms.take(c as int), ids@, consts@),
        decreases cycles@.len() - c,
    {
        let members = &cycles[c].members;
        proof {
            assert(ms[c as int] == cycles@[c as int].members@);
            assert forall|i2: int| 0 <= i2 < members@.len() implies #[trigger] members@[i2] < ids@.len() by {
                assert(ms[c as int][i2] == members@[i2]);
            }
        }
        let mut items: Vec<ModItem> = Vec::new();
        let mut names: Vec<String> = Vec::new();
        let mut m: usize = 0;
        while m < members.len()
            invariant
                0 <= m <= members@.len(),
                0 <= c < cycles@.len(),
                members@ == cycles@[c as int].members@,
                members@ == ms[c as int],
                forall|i2: int| 0 <= i2 < members@.len() ==> #[trigger] members@[i2] < ids@.len(),
                cycles@[c as int].names@.len() == members@.len(),
                items@.len() == m && names@.len() == m,
                forall|i2: int| 0 <= i2 < m ==> #[trigger] items@[i2] == ModItem::Const(ids@[members@[i2] as int]),
                forall|i2: int| 0 <= i2 < m ==> #[trigger] names@[i2]@ == cycles@[c as int].names@[i2]@,
            decreases members@.len() - m,
        {
            proof {
                assert(ms[c as int][m as int] < ids@.len());
            }
            items.push(ModItem::Const(ids[members[m]]));
            names.push(cycles[c].names[m].clone());
            m = m + 1;
        }
        let ghost r0 = r@;
        r.push(ItemTreeDiagnostic::CyclicConstDefinition { items, names });
        proof {
            assert(ms.take(c + 1).drop_last() =~= ms.take(c as int));
            assert forall|j: int| 0 <= j < n_dups implies diagnostic_view(#[trigger] r@[j]) == DiagnosticView::Duplicate(
                duplicates(top@, defined@, top@.len() as int)[j].0,
                duplicates(top@, defined@, top@.len() as int)[j].1,
                duplicates(top@, defined@, top@.len() as int)[j].2,
            ) by {
                assert(r@[j] == r0[j]);
            }
            assert forall|j: int| 0 <= j < c + 1 implies match #[trigger] r@[n_dups + j] {
                ItemTreeDiagnostic::CyclicConstDefinition { items, names } => {
                    &&& items@.len() == ms.take(c + 1)[j].len() && names@.len() == ms.take(c + 1)[j].len()
                    &&& forall|i2: int|
                        0 <= i2 < ms.take(c + 1)[j].len() ==> #[trigger] items@[i2] == ModItem::Const(
                            ids@[ms.take(c + 1)[j][i2] as int],
                        ) && names@[i2]@ == consts@[ids@[ms.take(c + 1)[j][i2] as int] as int].name@
                },
                _ => false,
            } by {
                if j < c {
                    assert(r@[n_dups + j] == r0[n_dups + j]);
                    assert(ms.take(c + 1)[j] == ms.take(c as int)[j]);
                } else {
                    assert(ms.take(c + 1)[j] == ms[c as int]);
                }
            }
        }
        c = c + 1;
    }
    proof {
        assert(ms.take(ms.len() as int) =~= ms);
        assert(cycles_of(dependency_graph(top_consts(top@, consts@)), ms));
    }
    r
}

} // verus!

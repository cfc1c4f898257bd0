//! The signature data of a function, lowered from its source: the types of
//! the receiver, the parameters and the return value, the attributes that
//! change how the function is checked or exported, and its generic
//! parameters.
use vstd::prelude::*;
use crate::item_tree::{law_flags_are_independent, FunctionFlags, IdRange, RawVisibilityId};
use crate::text::str_eq;
use crate::type_ref::{
    alloc_plain, lower, lower_opt, Lowering, TypeRefMap, TypeRefMapBuilder, TypeRefSourceMap,
    TypeRefView, TypeSyntax, refs_view, self_path_view,
};

verus! {

/// An ordinary parameter as written: its ascribed type, when there is one,
/// and whether it carries the `consuming` keyword.
#[derive(Debug)]
pub struct ParamSyntax {
    pub type_ref: Option<TypeSyntax>,
    pub consuming: bool,
}

/// An attribute as written: its name, when its path is a plain name, and
/// the source text of its first argument, when it has one.
#[derive(Debug, Clone)]
pub struct AttributeSyntax {
    pub name: Option<String>,
    pub first_arg: Option<String>,
}

/// A function's signature as the parser gives it. A missing parameter list,
/// attribute list or generic parameter list is an empty one.
#[derive(Debug)]
pub struct FunctionSyntax {
    /// The `self` parameter, with its ascribed type if it has one.
    pub self_param: Option<Option<TypeSyntax>>,
    pub params: Vec<ParamSyntax>,
    pub attributes: Vec<AttributeSyntax>,
    pub ret_type: Option<TypeSyntax>,
    /// The generic parameters, by name where they have one.
    pub generic_params: Vec<Option<String>>,
}

/// The data of a function that its signature determines.
#[derive(Debug)]
pub struct FunctionData {
    pub name: String,
    pub params: Vec<usize>,
    pub visibility: RawVisibilityId,
    pub ret_type: usize,
    pub type_ref_map: TypeRefMap,
    pub type_ref_source_map: TypeRefSourceMap,
    pub flags: FunctionFlags,
    /// The names of the function's own generic parameters, in order.
    pub generic_params: Vec<String>,
    /// The effects of its `uses` clause, in order.
    pub effects: Vec<String>,
    /// Parallel to `params`: whether each carries `consuming`.
    pub consuming_params: Vec<bool>,
    /// Whether the function carries `@strict`.
    pub is_strict: bool,
    /// The ABI named by an `@export("...")` attribute.
    pub export_abi: Option<String>,
    /// The receiver's type, kept apart from `params`.
    pub self_param: Option<usize>,
}

/// `s` without its leading `c` characters.
pub open spec fn strip_leading(s: Seq<char>, c: char) -> Seq<char>
    decreases s.len(),
{
    if s.len() > 0 && s[0] == c {
        strip_leading(s.drop_first(), c)
    } else {
        s
    }
}

/// `s` without its trailing `c` characters.
pub open spec fn strip_trailing(s: Seq<char>, c: char) -> Seq<char>
    decreases s.len(),
{
    if s.len() > 0 && s.last() == c {
        strip_trailing(s.drop_last(), c)
    } else {
        s
    }
}

/// `s` without the double quotes at either end.
pub open spec fn trim_quotes(s: Seq<char>) -> Seq<char> {
    strip_trailing(strip_leading(s, '"'), '"')
}

/// `export`.
pub open spec fn export_name() -> Seq<char> {
    seq!['e', 'x', 'p', 'o', 'r', 't']
}

/// `strict`.
pub open spec fn strict_name() -> Seq<char> {
    seq!['s', 't', 'r', 'i', 'c', 't']
}

/// Whether an attribute has the plain name `name`.
pub open spec fn named(a: AttributeSyntax, name: Seq<char>) -> bool {
    a.name matches Some(n) && n@ == name
}

/// The ABI of the first `@export` attribute with an argument among the
/// attributes from `k` on: its argument without surrounding quotes.
pub open spec fn export_from(attrs: Seq<AttributeSyntax>, k: int) -> Option<Seq<char>>
    decreases attrs.len() - k,
{
    if k < 0 || k >= attrs.len() {
        None
    } else if named(attrs[k], export_name()) && attrs[k].first_arg is Some {
        Some(trim_quotes(attrs[k].first_arg->Some_0@))
    } else {
        export_from(attrs, k + 1)
    }
}

/// The names of the named generic parameters, in order.
pub open spec fn generic_names(ps: Seq<Option<String>>) -> Seq<Seq<char>>
    decreases ps.len(),
{
    if ps.len() == 0 {
        Seq::empty()
    } else {
        match ps.last() {
            Some(n) => generic_names(ps.drop_last()).push(n@),
            None => generic_names(ps.drop_last()),
        }
    }
}

/// Lowers the parameters' types one after the other, giving their ids.
pub open spec fn lower_params(ps: Seq<ParamSyntax>, st: Lowering) -> (Lowering, Seq<usize>)
    decreases ps.len(),
{
    if ps.len() == 0 {
        (st, Seq::empty())
    } else {
        let (st1, ids) = lower_params(ps.drop_last(), st);
        let (st2, id) = lower_opt(ps.last().type_ref, st1);
        (st2, ids.push(id))
    }
}

/// The receiver's type lowered: as ascribed, or else `Self`.
pub open spec fn lower_self(sp: Option<Option<TypeSyntax>>, st: Lowering) -> (Lowering, Option<usize>) {
    match sp {
        Some(Some(t)) => (lower(t, st).0, Some(lower(t, st).1)),
        Some(None) => {
            let r = alloc_plain(st, TypeRefView::Path(self_path_view().0, self_path_view().1, Seq::empty()));
            (r.0, Some(r.1))
        },
        None => (st, None),
    }
}

/// The return type lowered: as written, or else the unit type.
pub open spec fn lower_ret(t: Option<TypeSyntax>, st: Lowering) -> (Lowering, usize) {
    match t {
        Some(x) => lower(x, st),
        None => alloc_plain(st, TypeRefView::Tuple(Seq::empty())),
    }
}

/// The empty lowering state.
pub open spec fn nothing_lowered() -> Lowering {
    Lowering { refs: Seq::empty(), sources: Seq::empty() }
}

/// The type references of a signature, lowered in order: the receiver, the
/// parameters, the return type. Gives the final state and the receiver's,
/// the parameters' and the return type's ids.
pub open spec fn lower_signature(src: FunctionSyntax) -> (Lowering, Option<usize>, Seq<usize>, usize) {
    let (st1, self_id) = lower_self(src.self_param, nothing_lowered());
    let (st2, param_ids) = lower_params(src.params@, st1);
    let (st3, ret) = lower_ret(src.ret_type, st2);
    (st3, self_id, param_ids, ret)
}

/// `s` without the leading and trailing double quotes.
fn trim_quote_chars(s: &str) -> (r: String)
    ensures
        r@ == trim_quotes(s@),
{
    let n = s.unicode_len();
    let mut i: usize = 0;
    proof {
        assert(s@.subrange(0, n as int) =~= s@);
    }
    while i < n && s.get_char(i) == '"'
        invariant
            0 <= i <= n,
            n == s@.len(),
            strip_leading(s@, '"') == strip_leading(s@.subrange(i as int, n as int), '"'),
        decreases n - i,
    {
        proof {
            assert(s@.subrange(i as int, n as int).drop_first() =~= s@.subrange(i + 1, n as int));
        }
        i = i + 1;
    }
    let mut j: usize = n;
    proof {
        assert(strip_leading(s@.subrange(i as int, n as int), '"') == s@.subrange(i as int, n as int));
    }
    while j > i && s.get_char(j - 1) == '"'
        invariant
            0 <= i <= j <= n,
            n == s@.len(),
            trim_quotes(s@) == strip_trailing(s@.subrange(i as int, j as int), '"'),
        decreases j,
    {
        proof {
            assert(s@.subrange(i as int, j as int).drop_last() =~= s@.subrange(i as int, j - 1));
        }
        j = j - 1;
    }
    proof {
        assert(strip_trailing(s@.subrange(i as int, j as int), '"') == s@.subrange(i as int, j as int));
    }
    let t = s.substring_char(i, j);
    String::from_str(t)
}

/// Lowers the function `src` whose item-tree entry gives its name, flags,
/// visibility and effects: the receiver's type (as ascribed, else `Self`)
/// is kept apart from the parameters'; a missing parameter type is an
/// error reference; a missing return type is the unit type. The function
/// is strict when an attribute is named `strict`; its ABI is the argument,
/// without quotes, of the first `export` attribute that has one.
pub fn fn_data_query(
    src: &FunctionSyntax,
    name: String,
    flags: FunctionFlags,
    visibility: RawVisibilityId,
    effects: Vec<String>,
) -> (d: FunctionData)
    ensures
        d.name == name,
        d.flags == flags,
        d.visibility == visibility,
        d.effects == effects,
        refs_view(d.type_ref_map.type_refs@) == lower_signature(*src).0.refs,
        d.type_ref_source_map.entries@ == lower_signature(*src).0.sources,
        d.self_param == lower_signature(*src).1,
        d.params@ == lower_signature(*src).2,
        d.ret_type == lower_signature(*src).3,
        d.consuming_params@ == src.params@.map_values(|p: ParamSyntax| p.consuming),
        d.is_strict == exists|k: int|
            0 <= k < src.attributes@.len() && named(#[trigger] src.attributes@[k], strict_name()),
        (match d.export_abi {
            Some(abi) => export_from(src.attributes@, 0) == Some(abi@),
            None => export_from(src.attributes@, 0) is None,
        }),
        d.generic_params@.map_values(|g: String| g@) == generic_names(src.generic_params@),
{
    let mut b = TypeRefMapBuilder::new();
    let self_param = match &src.self_param {
        Some(Some(t)) => Some(b.alloc_from_node(t)),
        Some(None) => Some(b.alloc_self()),
        None => None,
    };
    assert(b.state() == lower_self(src.self_param, nothing_lowered()).0);
    let ghost st1 = b.state();

    let mut params: Vec<usize> = Vec::new();
    let mut consuming_params: Vec<bool> = Vec::new();
    let mut k: usize = 0;
    while k < src.params.len()
        invariant
            0 <= k <= src.params@.len(),
            (b.state(), params@) == lower_params(src.params@.subrange(0, k as int), st1),
            consuming_params@ == src.params@.subrange(0, k as int).map_values(
                |p: ParamSyntax| p.consuming,
            ),
        decreases src.params@.len() - k,
    {
        proof {
            assert(src.params@.subrange(0, k + 1).drop_last() =~= src.params@.subrange(0, k as int));
            assert(src.params@.subrange(0, k + 1).last() == src.params@[k as int]);
        }
        let p = &src.params[k];
        let id = match &p.type_ref {
            Some(t) => b.alloc_from_node(t),
            None => b.error(),
        };
        params.push(id);
        consuming_params.push(p.consuming);
        k = k + 1;
        proof {
            assert(consuming_params@ =~= src.params@.subrange(0, k as int).map_values(
                |p: ParamSyntax| p.consuming,
            ));
        }
    }
    proof {
        assert(src.params@.subrange(0, k as int) =~= src.params@);
    }

    let mut export_abi: Option<String> = None;
    let mut is_strict = false;
    let mut a: usize = 0;
    proof {
        reveal_strlit("export");
        reveal_strlit("strict");
        assert("export"@ =~= export_name());
        assert("strict"@ =~= strict_name());
    }
    while a < src.attributes.len()
        invariant
            0 <= a <= src.attributes@.len(),
            "export"@ == export_name(),
            "strict"@ == strict_name(),
            is_strict == exists|j: int|
                0 <= j < a && named(#[trigger] src.attributes@[j], strict_name()),
            (match export_abi {
                Some(abi) => export_from(src.attributes@, 0) == Some(abi@),
                None => export_from(src.attributes@, 0) == export_from(src.attributes@, a as int),
            }),
        decreases src.attributes@.len() - a,
    {
        let attr = &src.attributes[a];
        if let Some(n) = &attr.name {
            if str_eq(n.as_str(), "strict") {
                is_strict = true;
            }
            if export_abi.is_none() && str_eq(n.as_str(), "export") {
                if let Some(arg) = &attr.first_arg {
                    export_abi = Some(trim_quote_chars(arg.as_str()));
                }
            }
        }
        a = a + 1;
    }

    let ret_type = match &src.ret_type {
        Some(t) => b.alloc_from_node(t),
        None => b.unit(),
    };
    let (type_ref_map, type_ref_source_map) = b.finish();

    let mut generic_params: Vec<String> = Vec::new();
    let mut g: usize = 0;
    while g < src.generic_params.len()
        invariant
            0 <= g <= src.generic_params@.len(),
            generic_params@.map_values(|s: String| s@) == generic_names(
                src.generic_params@.subrange(0, g as int),
            ),
        decreases src.generic_params@.len() - g,
    {
        proof {
            assert(src.generic_params@.subrange(0, g + 1).drop_last() =~= src.generic_params@.subrange(
                0,
                g as int,
            ));
            assert(src.generic_params@.subrange(0, g + 1).last() == src.generic_params@[g as int]);
        }
        let ghost before = generic_params@;
        if let Some(n) = &src.generic_params[g] {
            generic_params.push(n.clone());
            proof {
                assert(generic_params@.map_values(|s: String| s@) =~= before.map_values(
                    |s: String| s@,
                ).push(n@));
            }
        }
        g = g + 1;
    }
    proof {
        assert(src.generic_params@.subrange(0, g as int) =~= src.generic_params@);
    }

    FunctionData {
        name,
        params,
        visibility,
        ret_type,
        type_ref_map,
        type_ref_source_map,
        flags,
        generic_params,
        effects,
        consuming_params,
        is_strict,
        export_abi,
        self_param,
    }
}

impl FunctionData {
    /// The function's name.
    pub fn name(&self) -> (n: &String)
        ensures
            *n == self.name,
    {
        &self.name
    }

    /// The ids of the ordinary parameters' types, in order.
    pub fn params(&self) -> (p: &[usize])
        ensures
            p@ == self.params@,
    {
        self.params.as_slice()
    }

    /// The receiver's type, for a method.
    pub fn self_param(&self) -> (s: Option<usize>)
        ensures
            s == self.self_param,
    {
        self.self_param
    }

    /// The item tree's visibility of the function.
    pub fn visibility(&self) -> (v: RawVisibilityId)
        ensures
            v == self.visibility,
    {
        self.visibility
    }

    /// The id of the return type.
    pub fn ret_type(&self) -> (r: usize)
        ensures
            r == self.ret_type,
    {
        self.ret_type
    }

    /// Where the type references came from.
    pub fn type_ref_source_map(&self) -> (m: &TypeRefSourceMap)
        ensures
            *m == self.type_ref_source_map,
    {
        &self.type_ref_source_map
    }

    /// The type references of the signature.
    pub fn type_ref_map(&self) -> (m: &TypeRefMap)
        ensures
            *m == self.type_ref_map,
    {
        &self.type_ref_map
    }

    /// Whether the function is extern.
    pub fn is_extern(&self) -> (b: bool)
        ensures
            b == self.flags.has(FunctionFlags::IS_EXTERN),
    {
        self.flags.is_extern()
    }

    /// Whether the function is a compiler intrinsic.
    pub fn is_intrinsic(&self) -> (b: bool)
        ensures
            b == self.flags.has(FunctionFlags::IS_INTRINSIC),
    {
        self.flags.is_intrinsic()
    }

    /// Whether the function takes `self`, and so can be called as a method.
    pub fn has_self_param(&self) -> (b: bool)
        ensures
            b == self.flags.has(FunctionFlags::HAS_SELF_PARAM),
    {
        self.flags.has_self_param()
    }

    /// The names of the function's own generic parameters.
    pub fn generic_params(&self) -> (g: &[String])
        ensures
            g@ == self.generic_params@,
    {
        self.generic_params.as_slice()
    }

    /// The effects of the function's `uses` clause.
    pub fn effects(&self) -> (e: &[String])
        ensures
            e@ == self.effects@,
    {
        self.effects.as_slice()
    }

    /// A function is declared pure when it has no `uses` clause.
    pub fn is_declared_pure(&self) -> (b: bool)
        ensures
            b == (self.effects@.len() == 0),
    {
        self.effects.len() == 0
    }

    /// Whether each ordinary parameter carries `consuming`.
    pub fn consuming_params(&self) -> (c: &[bool])
        ensures
            c@ == self.consuming_params@,
    {
        self.consuming_params.as_slice()
    }

    /// Whether the function opts into use-after-consume checking.
    pub fn is_strict(&self) -> (b: bool)
        ensures
            b == self.is_strict,
    {
        self.is_strict
    }

    /// The ABI named by the function's `@export("...")` attribute.
    pub fn export_abi(&self) -> (a: Option<&str>)
        ensures
            (match a {
                Some(s) => self.export_abi matches Some(e) && s@ == e@,
                None => self.export_abi is None,
            }),
    {
        match &self.export_abi {
            Some(e) => Some(e.as_str()),
            None => None,
        }
    }
}


// ---------------------------------------------------------------------
// The item-tree entry of a function
// ---------------------------------------------------------------------

/// A generic parameter as written: its name, when it has one, and its
/// bound, when it has one.
#[derive(Debug)]
pub struct GenericParamSyntax {
    pub name: Option<String>,
    pub bound: Option<TypeSyntax>,
}

/// A function definition as the parser gives it, with what the item tree
/// reads of it.
#[derive(Debug)]
pub struct FunctionDefSyntax {
    pub name: Option<String>,
    pub generic_params: Vec<GenericParamSyntax>,
    /// The effects of its `uses` clause, by name where an effect is a
    /// single-segment path.
    pub effects: Vec<Option<String>>,
    /// The `self` parameter, with its ascribed type if it has one.
    pub self_param: Option<Option<TypeSyntax>>,
    pub params: Vec<ParamSyntax>,
    pub ret_type: Option<TypeSyntax>,
    pub is_extern: bool,
    pub has_body: bool,
}

/// A generic parameter of the item tree: its name and its bound's type.
#[derive(Debug, Clone)]
pub struct GenericParamData {
    pub name: String,
    pub bound: Option<usize>,
}

/// A parameter of the item tree: its type and whether it is the receiver.
#[derive(Debug, Clone, Copy, PartialEq, Eq)]
pub struct ItemParam {
    pub type_ref: usize,
    pub is_self: bool,
}

/// The item-tree entry of a function.
#[derive(Debug)]
pub struct ItemFunction {
    pub name: String,
    pub visibility: RawVisibilityId,
    pub types: TypeRefMap,
    pub generic_params: Vec<GenericParamData>,
    /// The ids its parameters take in the item tree's parameter arena.
    pub params: IdRange,
    /// Its parameters, receiver first, to be put in that arena.
    pub param_data: Vec<ItemParam>,
    pub ret_type: usize,
    pub effects: Vec<String>,
    pub flags: FunctionFlags,
}

/// The named generic parameters lowered in order: each name with its
/// bound's id. A parameter without a name is skipped, bound and all.
pub open spec fn lower_generics(ps: Seq<GenericParamSyntax>, st: Lowering) -> (
    Lowering,
    Seq<(Seq<char>, Option<usize>)>,
)
    decreases ps.len(),
{
    if ps.len() == 0 {
        (st, Seq::empty())
    } else {
        let (st1, done) = lower_generics(ps.drop_last(), st);
        let p = ps.last();
        match p.name {
            None => (st1, done),
            Some(n) => match p.bound {
                Some(b) => (lower(b, st1).0, done.push((n@, Some(lower(b, st1).1)))),
                None => (st1, done.push((n@, None))),
            },
        }
    }
}

/// The item-tree lowering of a definition's types, in order: the generic
/// bounds, the receiver, the parameters, the return type. Gives the final
/// state, the generic parameters, the receiver's and the parameters' ids and
/// the return type's id.
pub open spec fn lower_definition(src: FunctionDefSyntax) -> (
    Lowering,
    Seq<(Seq<char>, Option<usize>)>,
    Option<usize>,
    Seq<usize>,
    usize,
) {
    let (st1, generics) = lower_generics(src.generic_params@, nothing_lowered());
    let (st2, self_id) = lower_self(src.self_param, st1);
    let (st3, param_ids) = lower_params(src.params@, st2);
    let (st4, ret) = lower_ret(src.ret_type, st3);
    (st4, generics, self_id, param_ids, ret)
}

/// Lowering the parameters gives one id per parameter.
pub proof fn lemma_lower_params_len(ps: Seq<ParamSyntax>, st: Lowering)
    ensures
        lower_params(ps, st).1.len() == ps.len(),
    decreases ps.len(),
{
    if ps.len() > 0 {
        lemma_lower_params_len(ps.drop_last(), st);
    }
}

/// The parameters of the item tree: the receiver first, then the others.
pub open spec fn item_params(self_id: Option<usize>, param_ids: Seq<usize>) -> Seq<ItemParam> {
    let rest = param_ids.map_values(|t: usize| ItemParam { type_ref: t, is_self: false });
    match self_id {
        Some(t) => seq![ItemParam { type_ref: t, is_self: true }] + rest,
        None => rest,
    }
}

/// Lowers a function definition into its item-tree entry, its parameters
/// taking ids from `next_param` on; `None` when the definition has no
/// name, with nothing lowered. The flags say whether it is extern, has a
/// body and takes `self`; it is never an intrinsic here.
pub fn lower_function(src: &FunctionDefSyntax, visibility: RawVisibilityId, next_param: u32) -> (r:
    Option<ItemFunction>)
    requires
        next_param + src.params@.len() + 1 <= u32::MAX,
    ensures
        r is None <==> src.name is None,
        r matches Some(f) ==> {
            let expected = lower_definition(*src);
            &&& f.name@ == src.name->Some_0@
            &&& f.visibility == visibility
            &&& refs_view(f.types.type_refs@) == expected.0.refs
            &&& f.generic_params@.map_values(|g: GenericParamData| (g.name@, g.bound)) == expected.1
            &&& f.param_data@ == item_params(expected.2, expected.3)
            &&& f.params.start == next_param
            &&& f.params.end == next_param + f.param_data@.len()
            &&& f.ret_type == expected.4
            &&& f.effects@.map_values(|e: String| e@) == generic_names(src.effects@)
            &&& f.flags.has(FunctionFlags::IS_EXTERN) == src.is_extern
            &&& f.flags.has(FunctionFlags::HAS_BODY) == src.has_body
            &&& f.flags.has(FunctionFlags::HAS_SELF_PARAM) == (src.self_param is Some)
            &&& !f.flags.has(FunctionFlags::IS_INTRINSIC)
        },
{
    let name = match &src.name {
        Some(n) => n.clone(),
        None => return None,
    };
    let mut b = TypeRefMapBuilder::new();
    let ghost st0 = b.state();
    assert(st0 == nothing_lowered());

    let mut generic_params: Vec<GenericParamData> = Vec::new();
    let mut g: usize = 0;
    while g < src.generic_params.len()
        invariant
            0 <= g <= src.generic_params@.len(),
            (b.state(), generic_params@.map_values(|d: GenericParamData| (d.name@, d.bound)))
                == lower_generics(src.generic_params@.subrange(0, g as int), st0),
        decreases src.generic_params@.len() - g,
    {
        proof {
            assert(src.generic_params@.subrange(0, g + 1).drop_last() =~= src.generic_params@.subrange(
                0,
                g as int,
            ));
            assert(src.generic_params@.subrange(0, g + 1).last() == src.generic_params@[g as int]);
        }
        let ghost before = generic_params@;
        let p = &src.generic_params[g];
        if let Some(n) = &p.name {
            let bound = match &p.bound {
                Some(t) => Some(b.alloc_from_node(t)),
                None => None,
            };
            generic_params.push(GenericParamData { name: n.clone(), bound });
            proof {
                assert(generic_params@.map_values(|d: GenericParamData| (d.name@, d.bound))
                    =~= before.map_values(|d: GenericParamData| (d.name@, d.bound)).push(
                    (n@, bound),
                ));
            }
        }
        g = g + 1;
    }
    proof {
        assert(src.generic_params@.subrange(0, g as int) =~= src.generic_params@);
    }
    let ghost st1 = b.state();

    let mut param_data: Vec<ItemParam> = Vec::new();
    let mut has_self_param = false;
    let self_id = match &src.self_param {
        Some(Some(t)) => Some(b.alloc_from_node(t)),
        Some(None) => Some(b.alloc_self()),
        None => None,
    };
    assert(b.state() == lower_self(src.self_param, st1).0);
    if let Some(t) = self_id {
        param_data.push(ItemParam { type_ref: t, is_self: true });
        has_self_param = true;
    }
    let ghost st2 = b.state();
    let ghost head = param_data@;
    let mut ids: Vec<usize> = Vec::new();
    let mut k: usize = 0;
    while k < src.params.len()
        invariant
            0 <= k <= src.params@.len(),
            (b.state(), ids@) == lower_params(src.params@.subrange(0, k as int), st2),
            param_data@ == head + ids@.map_values(|t: usize| ItemParam { type_ref: t, is_self: false }),
        decreases src.params@.len() - k,
    {
        proof {
            assert(src.params@.subrange(0, k + 1).drop_last() =~= src.params@.subrange(0, k as int));
            assert(src.params@.subrange(0, k + 1).last() == src.params@[k as int]);
        }
        let id = match &src.params[k].type_ref {
            Some(t) => b.alloc_from_node(t),
            None => b.error(),
        };
        ids.push(id);
        param_data.push(ItemParam { type_ref: id, is_self: false });
        k = k + 1;
        proof {
            assert(param_data@ =~= head + ids@.map_values(
                |t: usize| ItemParam { type_ref: t, is_self: false },
            ));
        }
    }
    proof {
        assert(src.params@.subrange(0, k as int) =~= src.params@);
        assert(param_data@ =~= item_params(self_id, ids@));
        lemma_lower_params_len(src.params@, st2);
        assert(param_data@.len() <= src.params@.len() + 1);
    }
    let ret_type = match &src.ret_type {
        Some(t) => b.alloc_from_node(t),
        None => b.unit(),
    };
    let (types, _sources) = b.finish();

    let mut effects: Vec<String> = Vec::new();
    let mut e: usize = 0;
    while e < src.effects.len()
        invariant
            0 <= e <= src.effects@.len(),
            effects@.map_values(|s: String| s@) == generic_names(src.effects@.subrange(0, e as int)),
        decreases src.effects@.len() - e,
    {
        proof {
            assert(src.effects@.subrange(0, e + 1).drop_last() =~= src.effects@.subrange(0, e as int));
            assert(src.effects@.subrange(0, e + 1).last() == src.effects@[e as int]);
        }
        let ghost before = effects@;
        if let Some(n) = &src.effects[e] {
            effects.push(n.clone());
            proof {
                assert(effects@.map_values(|s: String| s@) =~= before.map_values(|s: String| s@).push(
                    n@,
                ));
            }
        }
        e = e + 1;
    }
    proof {
        assert(src.effects@.subrange(0, e as int) =~= src.effects@);
    }

    let mut flags = FunctionFlags::empty();
    proof {
        assert(0u8 & 1u8 != 1u8 && 0u8 & 2u8 != 2u8 && 0u8 & 4u8 != 4u8 && 0u8 & 8u8 != 8u8)
            by (bit_vector);
    }
    if src.is_extern {
        proof {
            law_flags_are_independent(flags, FunctionFlags::IS_EXTERN, FunctionFlags::HAS_BODY);
            law_flags_are_independent(flags, FunctionFlags::IS_EXTERN, FunctionFlags::HAS_SELF_PARAM);
            law_flags_are_independent(flags, FunctionFlags::IS_EXTERN, FunctionFlags::IS_INTRINSIC);
        }
        flags = flags.with(FunctionFlags::IS_EXTERN);
    }
    if src.has_body {
        proof {
            law_flags_are_independent(flags, FunctionFlags::HAS_BODY, FunctionFlags::IS_EXTERN);
            law_flags_are_independent(flags, FunctionFlags::HAS_BODY, FunctionFlags::HAS_SELF_PARAM);
            law_flags_are_independent(flags, FunctionFlags::HAS_BODY, FunctionFlags::IS_INTRINSIC);
        }
        flags = flags.with(FunctionFlags::HAS_BODY);
    }
    if has_self_param {
        proof {
            law_flags_are_independent(flags, FunctionFlags::HAS_SELF_PARAM, FunctionFlags::IS_EXTERN);
            law_flags_are_independent(flags, FunctionFlags::HAS_SELF_PARAM, FunctionFlags::HAS_BODY);
            law_flags_are_independent(flags, FunctionFlags::HAS_SELF_PARAM, FunctionFlags::IS_INTRINSIC);
        }
        flags = flags.with(FunctionFlags::HAS_SELF_PARAM);
    }
    let count = param_data.len() as u32;
    let params = IdRange::new(next_param, next_param + count);
    Some(ItemFunction {
        name,
        visibility,
        types,
        generic_params,
        params,
        param_data,
        ret_type,
        effects,
        flags,
    })
}

} // verus!

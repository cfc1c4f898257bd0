//! Name resolution through a stack of scopes.
//!
//! A resolver holds the scopes a name can be looked up in, outermost first:
//! the module, an `impl` block, a declaration's generic parameters, and the
//! nested expression scopes of a body. A lookup walks them from the innermost
//! outwards; the first scope that knows the name decides. The module scope
//! always decides, since everything outside it is unreachable; how a path
//! resolves inside the module (through imports and submodules) is computed by
//! the package's definition map and handed to the lookup as a
//! [`ModuleResolution`].
use vstd::prelude::*;
use crate::text::str_eq;

verus! {

/// A module of a package.
#[derive(Debug, Clone, Copy, PartialEq, Eq)]
pub struct ModuleId {
    pub package: u32,
    pub local_id: u32,
}

/// From where a resolved item may be named.
#[derive(Debug, Clone, Copy, PartialEq, Eq)]
pub enum Visibility {
    /// Only from within the given module and its descendants.
    Module(ModuleId),
    /// From anywhere.
    Public,
}

/// A built-in primitive type, by its index among the primitives.
#[derive(Debug, Clone, Copy, PartialEq, Eq, Hash)]
pub struct PrimitiveType {
    pub inner: u32,
}

/// What a module-level name can stand for.
#[derive(Debug, Clone, Copy, PartialEq, Eq)]
pub enum ItemDefinitionId {
    ModuleId(u32),
    FunctionId(u32),
    StructId(u32),
    TypeAliasId(u32),
    PrimitiveType(PrimitiveType),
}

/// What a name means in the type namespace and in the value namespace.
#[derive(Debug, Clone, Copy, PartialEq, Eq)]
pub struct PerNs {
    pub types: Option<(ItemDefinitionId, Visibility)>,
    pub values: Option<(ItemDefinitionId, Visibility)>,
}

/// A declaration's generic parameter: its owner and its position in the
/// owner's parameter list.
#[derive(Debug, Clone, Copy, PartialEq, Eq)]
pub struct TypeParamId {
    pub owner: u32,
    pub index: u32,
}

/// A name resolved in the value namespace.
#[derive(Debug, Clone, Copy, PartialEq, Eq)]
pub enum ValueNs {
    ImplSelf(u32),
    LocalBinding(u32),
    FunctionId(u32),
    StructId(u32),
}

/// A name resolved in the type namespace.
#[derive(Debug, Clone, PartialEq, Eq)]
pub enum TypeNs {
    SelfType(u32),
    StructId(u32),
    TypeAliasId(u32),
    PrimitiveType(PrimitiveType),
    /// A generic parameter of the enclosing declaration, with the name it
    /// was written under (for display; its identity is the id).
    GenericParam(TypeParamId, String),
}

/// The outcome of resolving a path as a value: a value, or a type that only
/// the path's first segments named, with the index of the first segment left
/// over.
#[derive(Debug, Clone, PartialEq, Eq)]
pub enum ResolveValueResult {
    ValueNs(ValueNs, Visibility),
    Partial(TypeNs, usize),
}

/// An item visible from a scope, as offered for completion.
#[derive(Debug, Clone, Copy, PartialEq, Eq)]
pub enum ScopeDef {
    ImplSelfType(u32),
    PerNs(PerNs),
    Local(u32),
}

/// A local binding of an expression scope: its name and its pattern.
#[derive(Debug, Clone)]
pub struct ScopeEntry {
    pub name: String,
    pub pat: u32,
}

/// A generic parameter in scope, under the name it binds.
#[derive(Debug, Clone)]
pub struct GenericParam {
    pub name: String,
    pub id: TypeParamId,
}

/// The scope of a module: which module, and the names it lists, the
/// module's own entries followed by the built-in ones.
#[derive(Debug, Clone)]
pub struct ModuleScope {
    pub id: ModuleId,
    pub entries: Vec<(String, PerNs)>,
}

/// The local bindings visible at a point of a body, and the body's owner.
#[derive(Debug, Clone)]
pub struct ExprScope {
    pub owner: u32,
    pub entries: Vec<ScopeEntry>,
}

/// One level of the scope stack.
#[derive(Debug, Clone)]
pub enum Scope {
    /// All the items and imported names of a module.
    Module(ModuleScope),
    /// Brings `Self` of an `impl` block into scope.
    Impl(u32),
    /// A declaration's generic parameters, in declaration order.
    GenericParams(Vec<GenericParam>),
    /// Local bindings.
    Expr(ExprScope),
}

/// A path as written: the lone `self`, or a list of segments.
#[derive(Debug, Clone)]
pub struct Path {
    pub is_self: bool,
    pub segments: Vec<String>,
}

/// How a path resolves from a module: what its resolved prefix names, and,
/// when the whole path did not resolve, the index of the first segment left.
#[derive(Debug, Clone, Copy, PartialEq, Eq)]
pub struct ModuleResolution {
    pub def: PerNs,
    pub unresolved: Option<usize>,
}

/// The scopes a name is looked up in, outermost first.
#[derive(Debug, Clone)]
pub struct Resolver {
    pub scopes: Vec<Scope>,
}

/// `self`, the name of the receiver.
pub open spec fn self_value_name() -> Seq<char> {
    seq!['s', 'e', 'l', 'f']
}

/// `Self`, the name of an `impl` block's type.
pub open spec fn self_type_name() -> Seq<char> {
    seq!['S', 'e', 'l', 'f']
}

/// The pattern of the first binding named `name` among `entries`.
pub open spec fn find_local(entries: Seq<ScopeEntry>, name: Seq<char>) -> Option<u32>
    decreases entries.len(),
{
    if entries.len() == 0 {
        None
    } else if entries[0].name@ == name {
        Some(entries[0].pat)
    } else {
        find_local(entries.drop_first(), name)
    }
}

/// The first generic parameter named `name` among `params`.
pub open spec fn find_param(params: Seq<GenericParam>, name: Seq<char>) -> Option<TypeParamId>
    decreases params.len(),
{
    if params.len() == 0 {
        None
    } else if params[0].name@ == name {
        Some(params[0].id)
    } else {
        find_param(params.drop_first(), name)
    }
}

/// The value a module-level definition provides, if it is one: functions
/// and structs are values, modules, aliases and primitives are not.
pub open spec fn to_value_ns(per_ns: PerNs) -> Option<(ValueNs, Visibility)> {
    match per_ns.values {
        Some((ItemDefinitionId::FunctionId(id), vis)) => Some((ValueNs::FunctionId(id), vis)),
        Some((ItemDefinitionId::StructId(id), vis)) => Some((ValueNs::StructId(id), vis)),
        _ => None,
    }
}

/// The type a module-level definition provides, if it is one: structs,
/// aliases and primitives are types, modules and functions are not.
pub open spec fn to_type_ns(per_ns: PerNs) -> Option<(TypeNs, Visibility)> {
    match per_ns.types {
        Some((ItemDefinitionId::StructId(id), vis)) => Some((TypeNs::StructId(id), vis)),
        Some((ItemDefinitionId::TypeAliasId(id), vis)) => Some((TypeNs::TypeAliasId(id), vis)),
        Some((ItemDefinitionId::PrimitiveType(p), vis)) => Some((TypeNs::PrimitiveType(p), vis)),
        _ => None,
    }
}

/// What the innermost `k` scopes make of a value path whose first name is
/// `first` and which has `n_segments` segments, looking from scope `k - 1`
/// outwards. `m` is how the path resolves in the module scope.
pub open spec fn value_from(
    scopes: Seq<Scope>,
    k: int,
    first: Seq<char>,
    n_segments: int,
    m: ModuleResolution,
) -> Option<ResolveValueResult>
    decreases k,
{
    if k <= 0 {
        None
    } else {
        match scopes[k - 1] {
            Scope::GenericParams(_) => value_from(scopes, k - 1, first, n_segments, m),
            Scope::Expr(e) => {
                if n_segments <= 1 && find_local(e.entries@, first) is Some {
                    Some(
                        ResolveValueResult::ValueNs(
                            ValueNs::LocalBinding(find_local(e.entries@, first)->Some_0),
                            Visibility::Public,
                        ),
                    )
                } else {
                    value_from(scopes, k - 1, first, n_segments, m)
                }
            },
            Scope::Impl(i) => {
                if first == self_type_name() {
                    if n_segments <= 1 {
                        Some(ResolveValueResult::ValueNs(ValueNs::ImplSelf(i), Visibility::Public))
                    } else {
                        Some(ResolveValueResult::Partial(TypeNs::SelfType(i), 1))
                    }
                } else {
                    value_from(scopes, k - 1, first, n_segments, m)
                }
            },
            Scope::Module(_) => match m.unresolved {
                None => match to_value_ns(m.def) {
                    Some((v, vis)) => Some(ResolveValueResult::ValueNs(v, vis)),
                    None => None,
                },
                Some(idx) => match to_type_ns(m.def) {
                    Some((t, _)) => Some(ResolveValueResult::Partial(t, idx)),
                    None => None,
                },
            },
        }
    }
}

/// What a value path resolves to from the given scopes: the lone `self`
/// is looked up as the name `self`, any other path by its first segment; a
/// path with no segments resolves to nothing.
pub open spec fn value_resolution(scopes: Seq<Scope>, path: Path, m: ModuleResolution) -> Option<
    ResolveValueResult,
> {
    if path.is_self {
        value_from(scopes, scopes.len() as int, self_value_name(), path.segments@.len() as int, m)
    } else if path.segments@.len() == 0 {
        None
    } else {
        value_from(scopes, scopes.len() as int, path.segments@[0]@, path.segments@.len() as int, m)
    }
}

/// What the innermost `k` scopes make of a type path whose first segment
/// is `first` and which has `n_segments` segments: the type, its
/// visibility, and the index of the first segment left unresolved.
pub open spec fn type_from(
    scopes: Seq<Scope>,
    k: int,
    first: String,
    n_segments: int,
    m: ModuleResolution,
) -> Option<(TypeNs, Visibility, Option<usize>)>
    decreases k,
{
    if k <= 0 {
        None
    } else {
        match scopes[k - 1] {
            Scope::Expr(_) => type_from(scopes, k - 1, first, n_segments, m),
            Scope::Impl(i) => {
                if first@ == self_type_name() {
                    Some(
                        (
                            TypeNs::SelfType(i),
                            Visibility::Public,
                            if n_segments == 1 {
                                None
                            } else {
                                Some(1usize)
                            },
                        ),
                    )
                } else {
                    type_from(scopes, k - 1, first, n_segments, m)
                }
            },
            Scope::GenericParams(ps) => {
                if n_segments == 1 && find_param(ps@, first@) is Some {
                    Some(
                        (
                            TypeNs::GenericParam(find_param(ps@, first@)->Some_0, first),
                            Visibility::Public,
                            None,
                        ),
                    )
                } else {
                    type_from(scopes, k - 1, first, n_segments, m)
                }
            },
            Scope::Module(_) => match to_type_ns(m.def) {
                Some((t, vis)) => Some((t, vis, m.unresolved)),
                None => None,
            },
        }
    }
}

/// What a type path resolves to from the given scopes, looked up by its
/// first segment; a path with no segments resolves to nothing.
pub open spec fn type_resolution(scopes: Seq<Scope>, path: Path, m: ModuleResolution) -> Option<
    (TypeNs, Visibility, Option<usize>),
> {
    if path.segments@.len() == 0 {
        None
    } else {
        type_from(scopes, scopes.len() as int, path.segments@[0], path.segments@.len() as int, m)
    }
}

/// The innermost module scope among the first `k` scopes.
pub open spec fn module_from(scopes: Seq<Scope>, k: int) -> Option<ModuleId>
    decreases k,
{
    if k <= 0 {
        None
    } else {
        match scopes[k - 1] {
            Scope::Module(ms) => Some(ms.id),
            _ => module_from(scopes, k - 1),
        }
    }
}

/// The owner of the innermost expression scope among the first `k` scopes.
pub open spec fn owner_from(scopes: Seq<Scope>, k: int) -> Option<u32>
    decreases k,
{
    if k <= 0 {
        None
    } else {
        match scopes[k - 1] {
            Scope::Expr(e) => Some(e.owner),
            _ => owner_from(scopes, k - 1),
        }
    }
}

/// The names a scope offers, in the order it lists them: a module's
/// entries, `Self` of an `impl` block, an expression scope's bindings. A
/// generic parameter names a type, not a value, and is not offered.
pub open spec fn scope_names(scope: Scope) -> Seq<(Seq<char>, ScopeDef)> {
    match scope {
        Scope::Module(ms) => ms.entries@.map_values(
            |e: (String, PerNs)| (e.0@, ScopeDef::PerNs(e.1)),
        ),
        Scope::Impl(i) => seq![(self_type_name(), ScopeDef::ImplSelfType(i))],
        Scope::GenericParams(_) => Seq::empty(),
        Scope::Expr(e) => e.entries@.map_values(
            |en: ScopeEntry| (en.name@, ScopeDef::Local(en.pat)),
        ),
    }
}

/// The names offered by the first `k` scopes, the innermost scope's first.
pub open spec fn names_from(scopes: Seq<Scope>, k: int) -> Seq<(Seq<char>, ScopeDef)>
    decreases k,
{
    if k <= 0 {
        Seq::empty()
    } else {
        scope_names(scopes[k - 1]) + names_from(scopes, k - 1)
    }
}

/// A list of offered names, each name taken by its characters.
pub open spec fn names_view(names: Seq<(String, ScopeDef)>) -> Seq<(Seq<char>, ScopeDef)> {
    names.map_values(|p: (String, ScopeDef)| (p.0@, p.1))
}

proof fn lemma_find_local_step(entries: Seq<ScopeEntry>, name: Seq<char>, i: int)
    requires
        0 <= i < entries.len(),
        entries[i].name@ != name,
    ensures
        find_local(entries.skip(i), name) == find_local(entries.skip(i + 1), name),
{
    assert(entries.skip(i).drop_first() =~= entries.skip(i + 1));
}

proof fn lemma_find_param_step(params: Seq<GenericParam>, name: Seq<char>, i: int)
    requires
        0 <= i < params.len(),
        params[i].name@ != name,
    ensures
        find_param(params.skip(i), name) == find_param(params.skip(i + 1), name),
{
    assert(params.skip(i).drop_first() =~= params.skip(i + 1));
}

/// Looks `name` up among the bindings of an expression scope.
fn lookup_local(entries: &Vec<ScopeEntry>, name: &str) -> (r: Option<u32>)
    ensures
        r == find_local(entries@, name@),
{
    let mut i: usize = 0;
    proof {
        assert(entries@.skip(0) =~= entries@);
    }
    while i < entries.len()
        invariant
            0 <= i <= entries@.len(),
            find_local(entries@, name@) == find_local(entries@.skip(i as int), name@),
        decreases entries@.len() - i,
    {
        if str_eq(entries[i].name.as_str(), name) {
            return Some(entries[i].pat);
        }
        proof {
            lemma_find_local_step(entries@, name@, i as int);
        }
        i = i + 1;
    }
    None
}

/// Looks `name` up among a declaration's generic parameters.
fn lookup_param(params: &Vec<GenericParam>, name: &str) -> (r: Option<TypeParamId>)
    ensures
        r == find_param(params@, name@),
{
    let mut i: usize = 0;
    proof {
        assert(params@.skip(0) =~= params@);
    }
    while i < params.len()
        invariant
            0 <= i <= params@.len(),
            find_param(params@, name@) == find_param(params@.skip(i as int), name@),
        decreases params@.len() - i,
    {
        if str_eq(params[i].name.as_str(), name) {
            return Some(params[i].id);
        }
        proof {
            lemma_find_param_step(params@, name@, i as int);
        }
        i = i + 1;
    }
    None
}

/// Resolves a value path whose first name is `first` through the scopes,
/// innermost first.
fn value_in_scopes(scopes: &Vec<Scope>, first: &str, n_segments: usize, m: &ModuleResolution) -> (r:
    Option<ResolveValueResult>)
    ensures
        r == value_from(scopes@, scopes@.len() as int, first@, n_segments as int, *m),
{
    let mut k: usize = scopes.len();
    while k > 0
        invariant
            0 <= k <= scopes@.len(),
            value_from(scopes@, scopes@.len() as int, first@, n_segments as int, *m)
                == value_from(scopes@, k as int, first@, n_segments as int, *m),
        decreases k,
    {
        match &scopes[k - 1] {
            Scope::GenericParams(_) => {},
            Scope::Expr(e) => {
                if n_segments <= 1 {
                    if let Some(pat) = lookup_local(&e.entries, first) {
                        return Some(
                            ResolveValueResult::ValueNs(
                                ValueNs::LocalBinding(pat),
                                Visibility::Public,
                            ),
                        );
                    }
                }
            },
            Scope::Impl(i) => {
                proof {
                    reveal_strlit("Self");
                    assert("Self"@ =~= self_type_name());
                }
                if str_eq(first, "Self") {
                    return Some(
                        if n_segments <= 1 {
                            ResolveValueResult::ValueNs(ValueNs::ImplSelf(*i), Visibility::Public)
                        } else {
                            ResolveValueResult::Partial(TypeNs::SelfType(*i), 1)
                        },
                    );
                }
            },
            Scope::Module(_) => {
                return match m.unresolved {
                    None => match m.def.values {
                        Some((ItemDefinitionId::FunctionId(id), vis)) => Some(
                            ResolveValueResult::ValueNs(ValueNs::FunctionId(id), vis),
                        ),
                        Some((ItemDefinitionId::StructId(id), vis)) => Some(
                            ResolveValueResult::ValueNs(ValueNs::StructId(id), vis),
                        ),
                        _ => None,
                    },
                    Some(idx) => match m.def.types {
                        Some((ItemDefinitionId::StructId(id), _)) => Some(
                            ResolveValueResult::Partial(TypeNs::StructId(id), idx),
                        ),
                        Some((ItemDefinitionId::TypeAliasId(id), _)) => Some(
                            ResolveValueResult::Partial(TypeNs::TypeAliasId(id), idx),
                        ),
                        Some((ItemDefinitionId::PrimitiveType(p), _)) => Some(
                            ResolveValueResult::Partial(TypeNs::PrimitiveType(p), idx),
                        ),
                        _ => None,
                    },
                };
            },
        }
        k = k - 1;
    }
    None
}

/// Resolves a type path whose first segment is `first` through the scopes,
/// innermost first.
fn type_in_scopes(scopes: &Vec<Scope>, first: &String, n_segments: usize, m: &ModuleResolution) -> (r:
    Option<(TypeNs, Visibility, Option<usize>)>)
    ensures
        r == type_from(scopes@, scopes@.len() as int, *first, n_segments as int, *m),
{
    let mut k: usize = scopes.len();
    while k > 0
        invariant
            0 <= k <= scopes@.len(),
            type_from(scopes@, scopes@.len() as int, *first, n_segments as int, *m)
                == type_from(scopes@, k as int, *first, n_segments as int, *m),
        decreases k,
    {
        match &scopes[k - 1] {
            Scope::Expr(_) => {},
            Scope::Impl(i) => {
                proof {
                    reveal_strlit("Self");
                    assert("Self"@ =~= self_type_name());
                }
                if str_eq(first.as_str(), "Self") {
                    let rest = if n_segments == 1 {
                        None
                    } else {
                        Some(1usize)
                    };
                    return Some((TypeNs::SelfType(*i), Visibility::Public, rest));
                }
            },
            Scope::GenericParams(ps) => {
                if n_segments == 1 {
                    if let Some(param) = lookup_param(ps, first.as_str()) {
                        return Some(
                            (TypeNs::GenericParam(param, first.clone()), Visibility::Public, None),
                        );
                    }
                }
            },
            Scope::Module(_) => {
                return match m.def.types {
                    Some((ItemDefinitionId::StructId(id), vis)) => Some(
                        (TypeNs::StructId(id), vis, m.unresolved),
                    ),
                    Some((ItemDefinitionId::TypeAliasId(id), vis)) => Some(
                        (TypeNs::TypeAliasId(id), vis, m.unresolved),
                    ),
                    Some((ItemDefinitionId::PrimitiveType(p), vis)) => Some(
                        (TypeNs::PrimitiveType(p), vis, m.unresolved),
                    ),
                    _ => None,
                };
            },
        }
        k = k - 1;
    }
    None
}

impl Resolver {
    /// A resolver with no scope: it resolves nothing.
    pub fn new() -> (r: Resolver)
        ensures
            r.scopes@ == Seq::<Scope>::empty(),
    {
        Resolver { scopes: Vec::new() }
    }

    /// Adds a scope inside all the present ones.
    pub fn push_scope(self, scope: Scope) -> (r: Resolver)
        ensures
            r.scopes@ == self.scopes@.push(scope),
    {
        let mut scopes = self.scopes;
        scopes.push(scope);
        Resolver { scopes }
    }

    /// Resolves `path` as a value, walking the scopes from the innermost:
    /// a local binding of an expression scope (for a single-segment path),
    /// `Self` of an `impl` block, or else what the module scope makes of it
    /// (`in_module`). Generic parameters name types only and are passed
    /// over. The result may say that only a prefix of the path named a type.
    pub fn resolve_path_as_value(&self, path: &Path, in_module: &ModuleResolution) -> (r: Option<
        ResolveValueResult,
    >)
        ensures
            r == value_resolution(self.scopes@, *path, *in_module),
    {
        let n = path.segments.len();
        if path.is_self {
            proof {
                reveal_strlit("self");
                assert("self"@ =~= self_value_name());
            }
            value_in_scopes(&self.scopes, "self", n, in_module)
        } else if n == 0 {
            None
        } else {
            value_in_scopes(&self.scopes, path.segments[0].as_str(), n, in_module)
        }
    }

    /// Resolves `path` as a value, and only if the whole path names one.
    pub fn resolve_path_as_value_fully(&self, path: &Path, in_module: &ModuleResolution) -> (r:
        Option<(ValueNs, Visibility)>)
        ensures
            r == (match value_resolution(self.scopes@, *path, *in_module) {
                Some(ResolveValueResult::ValueNs(v, vis)) => Some((v, vis)),
                _ => None,
            }),
    {
        match self.resolve_path_as_value(path, in_module) {
            Some(ResolveValueResult::ValueNs(v, vis)) => Some((v, vis)),
            _ => None,
        }
    }

    /// Resolves `path` as a type, walking the scopes from the innermost:
    /// `Self` of an `impl` block, a generic parameter (for a single-segment
    /// path), or else what the module scope makes of it (`in_module`).
    /// Expression scopes hold values only and are passed over. The result
    /// carries the index of the first segment left unresolved, if any.
    pub fn resolve_path_as_type(&self, path: &Path, in_module: &ModuleResolution) -> (r: Option<
        (TypeNs, Visibility, Option<usize>),
    >)
        ensures
            r == type_resolution(self.scopes@, *path, *in_module),
    {
        let n = path.segments.len();
        if n == 0 {
            None
        } else {
            type_in_scopes(&self.scopes, &path.segments[0], n, in_module)
        }
    }

    /// Resolves `path` as a type, and only if the whole path names one.
    pub fn resolve_path_as_type_fully(&self, path: &Path, in_module: &ModuleResolution) -> (r:
        Option<(TypeNs, Visibility)>)
        ensures
            r == (match type_resolution(self.scopes@, *path, *in_module) {
                Some((t, vis, None)) => Some((t, vis)),
                _ => None,
            }),
    {
        match self.resolve_path_as_type(path, in_module) {
            Some((t, vis, None)) => Some((t, vis)),
            _ => None,
        }
    }

    /// The module names are resolved from: that of the innermost module
    /// scope.
    pub fn module(&self) -> (r: Option<ModuleId>)
        ensures
            r == module_from(self.scopes@, self.scopes@.len() as int),
    {
        let mut k: usize = self.scopes.len();
        while k > 0
            invariant
                0 <= k <= self.scopes@.len(),
                module_from(self.scopes@, self.scopes@.len() as int) == module_from(
                    self.scopes@,
                    k as int,
                ),
            decreases k,
        {
            if let Scope::Module(ms) = &self.scopes[k - 1] {
                return Some(ms.id);
            }
            k = k - 1;
        }
        None
    }

    /// The body the resolver looks into, if it holds an expression scope:
    /// the owner of the innermost one.
    pub fn body_owner(&self) -> (r: Option<u32>)
        ensures
            r == owner_from(self.scopes@, self.scopes@.len() as int),
    {
        let mut k: usize = self.scopes.len();
        while k > 0
            invariant
                0 <= k <= self.scopes@.len(),
                owner_from(self.scopes@, self.scopes@.len() as int) == owner_from(
                    self.scopes@,
                    k as int,
                ),
            decreases k,
        {
            if let Scope::Expr(e) = &self.scopes[k - 1] {
                return Some(e.owner);
            }
            k = k - 1;
        }
        None
    }

    /// Every name in scope with what it stands for, as offered for
    /// completion: scope by scope from the innermost, each in its own order.
    pub fn visit_all_names(&self) -> (names: Vec<(String, ScopeDef)>)
        ensures
            names_view(names@) == names_from(self.scopes@, self.scopes@.len() as int),
    {
        let mut out: Vec<(String, ScopeDef)> = Vec::new();
        let mut k: usize = self.scopes.len();
        while k > 0
            invariant
                0 <= k <= self.scopes@.len(),
                names_from(self.scopes@, self.scopes@.len() as int) == names_view(out@)
                    + names_from(self.scopes@, k as int),
            decreases k,
        {
            let ghost before = names_view(out@);
            let ghost offered = scope_names(self.scopes@[k - 1]);
            match &self.scopes[k - 1] {
                Scope::Module(ms) => {
                    let mut j: usize = 0;
                    while j < ms.entries.len()
                        invariant
                            0 <= j <= ms.entries@.len(),
                            offered == scope_names(Scope::Module(*ms)),
                            names_view(out@) == before + offered.take(j as int),
                        decreases ms.entries@.len() - j,
                    {
                        let name = ms.entries[j].0.clone();
                        let def = ms.entries[j].1;
                        let ghost out_before = out@;
                        proof {
                            assert(offered[j as int] == (name@, ScopeDef::PerNs(def)));
                        }
                        out.push((name, ScopeDef::PerNs(def)));
                        proof {
                            assert(names_view(out@) =~= names_view(out_before).push(offered[j as int]));
                        }
                        proof {
                            assert(offered.take(j + 1) =~= offered.take(j as int).push(offered[j as int]));
                        }
                        j = j + 1;
                        proof {
                            assert(names_view(out@) =~= before + offered.take(j as int));
                        }
                    }
                    proof {
                        assert(offered.take(j as int) =~= offered);
                    }
                },
                Scope::Impl(i) => {
                    let name = String::from_str("Self");
                    proof {
                        reveal_strlit("Self");
                        assert(name@ =~= self_type_name());
                    }
                    out.push((name, ScopeDef::ImplSelfType(*i)));
                    proof {
                        assert(names_view(out@) =~= before + offered);
                    }
                },
                Scope::GenericParams(_) => {
                    proof {
                        assert(names_view(out@) =~= before + offered);
                    }
                },
                Scope::Expr(e) => {
                    let mut j: usize = 0;
                    while j < e.entries.len()
                        invariant
                            0 <= j <= e.entries@.len(),
                            offered == scope_names(Scope::Expr(*e)),
                            names_view(out@) == before + offered.take(j as int),
                        decreases e.entries@.len() - j,
                    {
                        let name = e.entries[j].name.clone();
                        let pat = e.entries[j].pat;
                        let ghost out_before = out@;
                        proof {
                            assert(offered[j as int] == (name@, ScopeDef::Local(pat)));
                        }
                        out.push((name, ScopeDef::Local(pat)));
                        proof {
                            assert(names_view(out@) =~= names_view(out_before).push(offered[j as int]));
                        }
                        proof {
                            assert(offered.take(j + 1) =~= offered.take(j as int).push(offered[j as int]));
                        }
                        j = j + 1;
                        proof {
                            assert(names_view(out@) =~= before + offered.take(j as int));
                        }
                    }
                    proof {
                        assert(offered.take(j as int) =~= offered);
                    }
                },
            }
            proof {
                assert(names_from(self.scopes@, k as int) == offered + names_from(
                    self.scopes@,
                    k - 1,
                ));
                assert(names_view(out@) + names_from(self.scopes@, k - 1) =~= before + names_from(
                    self.scopes@,
                    k as int,
                ));
            }
            k = k - 1;
        }
        proof {
            assert(names_view(out@) + names_from(self.scopes@, 0) =~= names_view(out@));
        }
        out
    }
}

/// The expression scopes of a scope chain, outermost first: the chain lists
/// a body's scopes from the innermost outwards, each by its bindings.
pub open spec fn chain_scopes(owner: u32, chain: Seq<Vec<ScopeEntry>>) -> Seq<Scope> {
    Seq::new(
        chain.len(),
        |i: int| Scope::Expr(ExprScope { owner, entries: chain[chain.len() - 1 - i] }),
    )
}

/// The resolver at a point of a body: the resolver of the body's owner
/// (`base`), with the expression scopes that enclose the point pushed from
/// the outermost in. `scope_chain` lists those scopes from the innermost
/// outwards, each by its bindings.
pub fn resolver_for_scope(base: Resolver, owner: u32, scope_chain: Vec<Vec<ScopeEntry>>) -> (r:
    Resolver)
    ensures
        r.scopes@ == base.scopes@ + chain_scopes(owner, scope_chain@),
{
    let ghost full = scope_chain@;
    let ghost n = scope_chain@.len();
    let mut chain = scope_chain;
    let mut r = base;
    proof {
        assert(chain@ =~= full.take(n as int));
        assert(r.scopes@ =~= base.scopes@ + chain_scopes(owner, full).take(0));
    }
    while chain.len() > 0
        invariant
            chain@.len() <= n,
            n == full.len(),
            chain@ == full.take(chain@.len() as int),
            r.scopes@ == base.scopes@ + chain_scopes(owner, full).take(n - chain@.len()),
        decreases chain@.len(),
    {
        let ghost len = chain@.len();
        let entries = chain.pop().unwrap();
        proof {
            assert(entries == full[len - 1]);
            assert(chain@ =~= full.take(len - 1));
        }
        r = r.push_scope(Scope::Expr(ExprScope { owner, entries }));
        proof {
            assert(chain_scopes(owner, full)[n - len] == Scope::Expr(ExprScope { owner, entries }));
            assert(chain_scopes(owner, full).take(n - len + 1) =~= chain_scopes(owner, full).take(
                n - len,
            ).push(chain_scopes(owner, full)[n - len]));
            assert(r.scopes@ =~= base.scopes@ + chain_scopes(owner, full).take(n - chain@.len()));
        }
    }
    proof {
        assert(chain_scopes(owner, full).take(n as int) =~= chain_scopes(owner, full));
    }
    r
}

} // verus!

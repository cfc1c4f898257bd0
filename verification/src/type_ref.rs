//! References to types, as written in the source and not yet resolved.
//!
//! The parser hands over a type as a [`TypeSyntax`] tree; lowering it puts
//! every type reference it contains into one arena, the [`TypeRefMap`], where
//! a reference names its parts by their arena ids. A [`TypeRefSourceMap`]
//! records, for each reference lowered from a syntax node, which node it
//! came from. Grouping parentheses and the reference and ownership markers
//! `&T` and `mut T` lower straight through to the type they wrap.
use vstd::prelude::*;
use crate::resolve::Path;

verus! {

/// A type as the parser gives it. `node` identifies the syntax node, to map
/// the lowered reference back to its source.
#[derive(Debug)]
pub enum TypeSyntax {
    /// `a.b.C[T, U]`: the path, when it could be read, and the generic
    /// arguments.
    Path { node: u32, path: Option<Path>, args: Vec<TypeSyntax> },
    /// `never`.
    Never { node: u32 },
    /// `[T]`.
    Array { node: u32, inner: Option<Box<TypeSyntax>> },
    /// `(A, B)`; `()` is the unit type.
    Tuple { node: u32, fields: Vec<TypeSyntax> },
    /// `(A)`: grouping only.
    Paren { node: u32, inner: Option<Box<TypeSyntax>> },
    /// `&T` or `mut T`.
    Reference { node: u32, inner: Option<Box<TypeSyntax>> },
    /// `func(A, B) -> R`.
    Function { node: u32 },
    /// `...`.
    Variadic { node: u32 },
    /// `T?`.
    Optional { node: u32, inner: Option<Box<TypeSyntax>> },
    /// `T { x | predicate }`, by its base type.
    Refinement { node: u32, base: Option<Box<TypeSyntax>> },
}

/// A lowered type reference; its parts are ids in the same arena.
#[derive(Debug, Clone)]
pub enum TypeRef {
    /// A named type with the generic arguments applied to it.
    Path(Path, Vec<usize>),
    Array(usize),
    /// `T?`: a type that may additionally be `nil`.
    Optional(usize),
    /// A refinement type, by its base.
    Refinement(usize),
    Never,
    Tuple(Vec<usize>),
    /// A type that could not be lowered.
    Error,
}

/// A lowered type reference as a value: paths by their text.
pub enum TypeRefView {
    Path(bool, Seq<Seq<char>>, Seq<usize>),
    Array(usize),
    Optional(usize),
    Refinement(usize),
    Never,
    Tuple(Seq<usize>),
    Error,
}

/// A path by its text: whether it is the lone `self`, and its segments.
pub open spec fn path_view(p: Path) -> (bool, Seq<Seq<char>>) {
    (p.is_self, p.segments@.map_values(|s: String| s@))
}

/// The path `Self`.
pub open spec fn self_path_view() -> (bool, Seq<Seq<char>>) {
    (false, seq![seq!['S', 'e', 'l', 'f']])
}

impl View for TypeRef {
    type V = TypeRefView;

    open spec fn view(&self) -> TypeRefView {
        match *self {
            TypeRef::Path(p, args) => TypeRefView::Path(path_view(p).0, path_view(p).1, args@),
            TypeRef::Array(i) => TypeRefView::Array(i),
            TypeRef::Optional(i) => TypeRefView::Optional(i),
            TypeRef::Refinement(i) => TypeRefView::Refinement(i),
            TypeRef::Never => TypeRefView::Never,
            TypeRef::Tuple(ids) => TypeRefView::Tuple(ids@),
            TypeRef::Error => TypeRefView::Error,
        }
    }
}

/// The type references lowered from one region of the source.
#[derive(Debug, Clone)]
pub struct TypeRefMap {
    pub type_refs: Vec<TypeRef>,
}

/// For each reference lowered from a syntax node: the node and the
/// reference's id, in the order they were lowered.
#[derive(Debug, Clone)]
pub struct TypeRefSourceMap {
    pub entries: Vec<(u32, usize)>,
}

/// The state of a lowering: the arena so far and the source entries so far.
pub struct Lowering {
    pub refs: Seq<TypeRefView>,
    pub sources: Seq<(u32, usize)>,
}

/// The arena of a map, by the references' views.
pub open spec fn refs_view(refs: Seq<TypeRef>) -> Seq<TypeRefView> {
    refs.map_values(|t: TypeRef| t@)
}

/// Puts `t`, lowered from `node`, in the arena; its id is the arena's size.
pub open spec fn alloc_from(st: Lowering, t: TypeRefView, node: u32) -> (Lowering, usize) {
    (
        Lowering { refs: st.refs.push(t), sources: st.sources.push((node, st.refs.len() as usize)) },
        st.refs.len() as usize,
    )
}

/// Puts `t`, which no syntax node stands for, in the arena.
pub open spec fn alloc_plain(st: Lowering, t: TypeRefView) -> (Lowering, usize) {
    (Lowering { refs: st.refs.push(t), sources: st.sources }, st.refs.len() as usize)
}

/// Lowers a type that may be missing; a missing one is an error reference.
pub open spec fn lower_boxed(t: Option<Box<TypeSyntax>>, st: Lowering) -> (Lowering, usize)
    decreases t,
{
    match t {
        Some(b) => lower(*b, st),
        None => alloc_plain(st, TypeRefView::Error),
    }
}

/// Lowers `t` into the arena of `st`: the parts first, in order, then the
/// reference itself.
pub open spec fn lower(t: TypeSyntax, st: Lowering) -> (Lowering, usize)
    decreases t,
{
    match t {
        TypeSyntax::Path { node, path, args } => {
            let (st1, ids) = lower_all(args@, st);
            match path {
                Some(p) => alloc_from(st1, TypeRefView::Path(path_view(p).0, path_view(p).1, ids), node),
                None => alloc_from(st1, TypeRefView::Error, node),
            }
        },
        TypeSyntax::Never { node } => alloc_from(st, TypeRefView::Never, node),
        TypeSyntax::Array { node, inner } => {
            let (st1, id) = lower_boxed(inner, st);
            alloc_from(st1, TypeRefView::Array(id), node)
        },
        TypeSyntax::Tuple { node, fields } => {
            let (st1, ids) = lower_all(fields@, st);
            alloc_from(st1, TypeRefView::Tuple(ids), node)
        },
        TypeSyntax::Paren { node, inner } => lower_boxed(inner, st),
        TypeSyntax::Reference { node, inner } => lower_boxed(inner, st),
        TypeSyntax::Function { node } => alloc_from(st, TypeRefView::Error, node),
        TypeSyntax::Variadic { node } => alloc_from(st, TypeRefView::Error, node),
        TypeSyntax::Optional { node, inner } => {
            let (st1, id) = lower_boxed(inner, st);
            alloc_from(st1, TypeRefView::Optional(id), node)
        },
        TypeSyntax::Refinement { node, base } => {
            let (st1, id) = lower_boxed(base, st);
            alloc_from(st1, TypeRefView::Refinement(id), node)
        },
    }
}

/// Lowers the types of `ts` one after the other, giving their ids in order.
pub open spec fn lower_all(ts: Seq<TypeSyntax>, st: Lowering) -> (Lowering, Seq<usize>)
    decreases ts,
{
    if ts.len() == 0 {
        (st, Seq::empty())
    } else {
        let (st1, ids) = lower_all(ts.subrange(0, ts.len() - 1), st);
        let (st2, id) = lower(ts[ts.len() - 1], st1);
        (st2, ids.push(id))
    }
}

/// Lowers a type that may be missing; a missing one is an error reference.
pub open spec fn lower_opt(t: Option<TypeSyntax>, st: Lowering) -> (Lowering, usize) {
    match t {
        Some(x) => lower(x, st),
        None => alloc_plain(st, TypeRefView::Error),
    }
}

/// Builds a [`TypeRefMap`] and its [`TypeRefSourceMap`] by lowering type
/// syntax.
pub struct TypeRefMapBuilder {
    pub map: TypeRefMap,
    pub source_map: TypeRefSourceMap,
}

impl TypeRefMapBuilder {
    /// The lowering state the builder holds.
    pub open spec fn state(&self) -> Lowering {
        Lowering { refs: refs_view(self.map.type_refs@), sources: self.source_map.entries@ }
    }

    /// A builder with nothing lowered yet.
    pub fn new() -> (b: TypeRefMapBuilder)
        ensures
            b.state().refs == Seq::<TypeRefView>::empty(),
            b.state().sources == Seq::<(u32, usize)>::empty(),
    {
        let b = TypeRefMapBuilder {
            map: TypeRefMap { type_refs: Vec::new() },
            source_map: TypeRefSourceMap { entries: Vec::new() },
        };
        proof {
            assert(refs_view(b.map.type_refs@) =~= Seq::<TypeRefView>::empty());
        }
        b
    }

    /// Puts `t`, lowered from `node`, in the arena and records its source.
    fn alloc_type_ref(&mut self, t: TypeRef, node: u32) -> (id: usize)
        ensures
            (final(self).state(), id) == alloc_from(old(self).state(), t@, node),
    {
        let id = self.map.type_refs.len();
        let ghost before = self.map.type_refs@;
        self.map.type_refs.push(t);
        self.source_map.entries.push((node, id));
        proof {
            assert(refs_view(self.map.type_refs@) =~= refs_view(before).push(t@));
        }
        id
    }

    /// Puts `t`, which no syntax node stands for, in the arena.
    fn alloc_plain(&mut self, t: TypeRef) -> (id: usize)
        ensures
            (final(self).state(), id) == alloc_plain(old(self).state(), t@),
    {
        let id = self.map.type_refs.len();
        let ghost before = self.map.type_refs@;
        self.map.type_refs.push(t);
        proof {
            assert(refs_view(self.map.type_refs@) =~= refs_view(before).push(t@));
        }
        id
    }

    /// Lowers a type that may be missing; a missing one becomes an error
    /// reference.
    pub fn alloc_from_node_opt(&mut self, node: Option<&TypeSyntax>) -> (id: usize)
        ensures
            (final(self).state(), id) == lower_opt(
                match node {
                    Some(n) => Some(*n),
                    None => None,
                },
                old(self).state(),
            ),
    {
        match node {
            Some(n) => self.alloc_from_node(n),
            None => self.error(),
        }
    }

    /// Lowers the types of `ts` in order, giving their ids.
    fn alloc_all(&mut self, ts: &Vec<TypeSyntax>, Ghost(whole): Ghost<TypeSyntax>) -> (ids: Vec<usize>)
        requires
            forall|i: int| 0 <= i < ts@.len() ==> decreases_to!(whole => #[trigger] ts@[i]),
        ensures
            (final(self).state(), ids@) == lower_all(ts@, old(self).state()),
        decreases whole, 0nat,
    {
        let mut ids: Vec<usize> = Vec::new();
        let mut k: usize = 0;
        proof {
            assert(ts@.subrange(0, 0) =~= Seq::<TypeSyntax>::empty());
        }
        while k < ts.len()
            invariant
                0 <= k <= ts@.len(),
                forall|i: int| 0 <= i < ts@.len() ==> decreases_to!(whole => #[trigger] ts@[i]),
                (self.state(), ids@) == lower_all(ts@.subrange(0, k as int), old(self).state()),
            decreases ts@.len() - k,
        {
            proof {
                assert(ts@.subrange(0, k + 1).subrange(0, k as int) =~= ts@.subrange(0, k as int));
                assert(ts@.subrange(0, k + 1)[k as int] == ts@[k as int]);
            }
            let id = self.alloc_from_node(&ts[k]);
            ids.push(id);
            k = k + 1;
        }
        proof {
            assert(ts@.subrange(0, k as int) =~= ts@);
        }
        ids
    }

    /// Lowers a type that may be missing, held in a box.
    fn alloc_boxed(&mut self, t: &Option<Box<TypeSyntax>>, Ghost(whole): Ghost<TypeSyntax>) -> (id:
        usize)
        requires
            t matches Some(b) ==> decreases_to!(whole => *b),
        ensures
            (final(self).state(), id) == lower_boxed(*t, old(self).state()),
        decreases whole, 0nat,
    {
        match t {
            Some(b) => self.alloc_from_node(b),
            None => self.error(),
        }
    }

    /// Lowers `node`: its parts first, in order, then the reference itself,
    /// which is recorded as coming from the node. Grouping parentheses and
    /// `&T` / `mut T` lower to the type they wrap; a path that could not be
    /// read, a function type and `...` lower to an error reference.
    pub fn alloc_from_node(&mut self, node: &TypeSyntax) -> (id: usize)
        ensures
            (final(self).state(), id) == lower(*node, old(self).state()),
        decreases *node, 1nat,
    {
        match node {
            TypeSyntax::Path { node: n, path, args } => {
                let ids = self.alloc_all(args, Ghost(*node));
                match path {
                    Some(p) => self.alloc_type_ref(TypeRef::Path(p.clone_path(), ids), *n),
                    None => self.alloc_type_ref(TypeRef::Error, *n),
                }
            },
            TypeSyntax::Never { node: n } => self.alloc_type_ref(TypeRef::Never, *n),
            TypeSyntax::Array { node: n, inner } => {
                let id = self.alloc_boxed(inner, Ghost(*node));
                self.alloc_type_ref(TypeRef::Array(id), *n)
            },
            TypeSyntax::Tuple { node: n, fields } => {
                let ids = self.alloc_all(fields, Ghost(*node));
                self.alloc_type_ref(TypeRef::Tuple(ids), *n)
            },
            TypeSyntax::Paren { node: _, inner } => self.alloc_boxed(inner, Ghost(*node)),
            TypeSyntax::Reference { node: _, inner } => self.alloc_boxed(inner, Ghost(*node)),
            TypeSyntax::Function { node: n } => self.alloc_type_ref(TypeRef::Error, *n),
            TypeSyntax::Variadic { node: n } => self.alloc_type_ref(TypeRef::Error, *n),
            TypeSyntax::Optional { node: n, inner } => {
                let id = self.alloc_boxed(inner, Ghost(*node));
                self.alloc_type_ref(TypeRef::Optional(id), *n)
            },
            TypeSyntax::Refinement { node: n, base } => {
                let id = self.alloc_boxed(base, Ghost(*node));
                self.alloc_type_ref(TypeRef::Refinement(id), *n)
            },
        }
    }

    /// A reference to the `Self` type, which no syntax node stands for.
    pub fn alloc_self(&mut self) -> (id: usize)
        ensures
            (final(self).state(), id) == alloc_plain(
                old(self).state(),
                TypeRefView::Path(self_path_view().0, self_path_view().1, Seq::empty()),
            ),
    {
        let name = String::from_str("Self");
        proof {
            reveal_strlit("Self");
            assert(name@ =~= seq!['S', 'e', 'l', 'f']);
        }
        let segments = vec![name];
        proof {
            assert(segments@.map_values(|s: String| s@) =~= self_path_view().1);
        }
        let t = TypeRef::Path(Path { is_self: false, segments }, Vec::new());
        proof {
            assert(t@ == TypeRefView::Path(self_path_view().0, self_path_view().1, Seq::empty()));
        }
        self.alloc_plain(t)
    }

    /// A reference to the unit type, the empty tuple.
    pub fn unit(&mut self) -> (id: usize)
        ensures
            (final(self).state(), id) == alloc_plain(
                old(self).state(),
                TypeRefView::Tuple(Seq::empty()),
            ),
    {
        let t = TypeRef::Tuple(Vec::new());
        proof {
            assert(t@ == TypeRefView::Tuple(Seq::empty()));
        }
        self.alloc_plain(t)
    }

    /// An error reference, marking a type missing from the source.
    pub fn error(&mut self) -> (id: usize)
        ensures
            (final(self).state(), id) == alloc_plain(old(self).state(), TypeRefView::Error),
    {
        self.alloc_plain(TypeRef::Error)
    }

    /// The references built and where they came from.
    pub fn finish(self) -> (r: (TypeRefMap, TypeRefSourceMap))
        ensures
            refs_view(r.0.type_refs@) == self.state().refs,
            r.1.entries@ == self.state().sources,
    {
        (self.map, self.source_map)
    }
}

impl Path {
    /// A copy of the path.
    pub fn clone_path(&self) -> (p: Path)
        ensures
            p.is_self == self.is_self,
            p.segments@ == self.segments@,
    {
        let mut segments: Vec<String> = Vec::new();
        let mut i: usize = 0;
        while i < self.segments.len()
            invariant
                0 <= i <= self.segments@.len(),
                segments@ == self.segments@.subrange(0, i as int),
            decreases self.segments@.len() - i,
        {
            segments.push(self.segments[i].clone());
            i = i + 1;
            proof {
                assert(segments@ =~= self.segments@.subrange(0, i as int));
            }
        }
        proof {
            assert(self.segments@.subrange(0, i as int) =~= self.segments@);
        }
        Path { is_self: self.is_self, segments }
    }
}

impl TypeRefMap {
    /// The number of references.
    pub fn len(&self) -> (n: usize)
        ensures
            n == self.type_refs@.len(),
    {
        self.type_refs.len()
    }

    /// The reference with id `id`.
    pub fn type_ref(&self, id: usize) -> (t: &TypeRef)
        requires
            id < self.type_refs@.len(),
        ensures
            *t == self.type_refs@[id as int],
    {
        &self.type_refs[id]
    }
}

/// The last entry of `entries` for syntax node `node`, among the first `k`.
pub open spec fn last_for_node(entries: Seq<(u32, usize)>, node: u32, k: int) -> Option<usize>
    decreases k,
{
    if k <= 0 {
        None
    } else if entries[k - 1].0 == node {
        Some(entries[k - 1].1)
    } else {
        last_for_node(entries, node, k - 1)
    }
}

/// The first entry of `entries` for reference `id`, among those from `k` on.
pub open spec fn first_for_id(entries: Seq<(u32, usize)>, id: usize, k: int) -> Option<u32>
    decreases entries.len() - k,
{
    if k < 0 || k >= entries.len() {
        None
    } else if entries[k].1 == id {
        Some(entries[k].0)
    } else {
        first_for_id(entries, id, k + 1)
    }
}

impl TypeRefSourceMap {
    /// The syntax node reference `id` was lowered from, if any.
    pub fn type_ref_syntax(&self, id: usize) -> (node: Option<u32>)
        ensures
            node == first_for_id(self.entries@, id, 0),
    {
        let mut k: usize = 0;
        while k < self.entries.len()
            invariant
                0 <= k <= self.entries@.len(),
                first_for_id(self.entries@, id, 0) == first_for_id(self.entries@, id, k as int),
            decreases self.entries@.len() - k,
        {
            if self.entries[k].1 == id {
                return Some(self.entries[k].0);
            }
            k = k + 1;
        }
        None
    }

    /// The reference lowered from syntax node `node`, if any; when the node
    /// was lowered more than once, the latest.
    pub fn syntax_type_ref(&self, node: u32) -> (id: Option<usize>)
        ensures
            id == last_for_node(self.entries@, node, self.entries@.len() as int),
    {
        let mut k: usize = self.entries.len();
        while k > 0
            invariant
                0 <= k <= self.entries@.len(),
                last_for_node(self.entries@, node, self.entries@.len() as int) == last_for_node(
                    self.entries@,
                    node,
                    k as int,
                ),
            decreases k,
        {
            if self.entries[k - 1].0 == node {
                return Some(self.entries[k - 1].1);
            }
            k = k - 1;
        }
        None
    }
}

} // verus!

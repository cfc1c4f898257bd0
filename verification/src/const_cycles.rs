//! Dependency cycles among module-level bindings.
//!
//! The bindings are the vertices; a binding depends on every binding whose
//! name its initializer mentions (a name bound twice means its last
//! binding). A cycle is a strongly connected component of more than one
//! binding, or a single binding that mentions itself. Components are found
//! with Tarjan's algorithm run with an explicit stack, so a long chain of
//! bindings does not grow the call stack.
pub mod search;

use search::{
    closing, cycle_flag, handed_low, lemma_advance, lemma_closing_members, lemma_done, lemma_initial,
    lemma_idle, lemma_keep, lemma_parent_differs, lemma_pop, lemma_room, lemma_root, lemma_stack_position,
    lemma_top, lemma_tree, search_ok, visited, Search,
};
use vstd::prelude::*;

verus! {

// ---------------------------------------------------------------------
// Graphs and reachability
// ---------------------------------------------------------------------

/// Every edge of `g` ends at a vertex of `g`.
pub open spec fn graph_ok(g: Seq<Seq<usize>>) -> bool {
    &&& g.len() <= usize::MAX
    &&& forall|a: int| 0 <= a < g.len() ==> #[trigger] g[a].len() <= usize::MAX
    &&& forall|a: int, e: int| 0 <= a < g.len() && 0 <= e < g[a].len() ==> #[trigger] g[a][e] < g.len()
}

/// `g` has an edge from `a` to `b`.
pub open spec fn edge(g: Seq<Seq<usize>>, a: int, b: int) -> bool {
    0 <= a < g.len() && exists|e: int| 0 <= e < g[a].len() && #[trigger] g[a][e] == b
}

/// `b` is reachable from `a` in at most `k` steps.
pub open spec fn reach_in(g: Seq<Seq<usize>>, a: int, b: int, k: nat) -> bool
    decreases k,
{
    if k == 0 {
        a == b
    } else {
        reach_in(g, a, b, (k - 1) as nat) || exists|c: int|
            reach_in(g, a, c, (k - 1) as nat) && #[trigger] edge(g, c, b)
    }
}

/// `b` is reachable from `a`, by a path of any length, the empty one
/// included.
#[verifier::opaque]
pub open spec fn reach(g: Seq<Seq<usize>>, a: int, b: int) -> bool {
    exists|k: nat| #[trigger] reach_in(g, a, b, k)
}

/// `a` and `b` reach each other: they lie in one strongly connected
/// component.
pub open spec fn mates(g: Seq<Seq<usize>>, a: int, b: int) -> bool {
    reach(g, a, b) && reach(g, b, a)
}

/// Some path of at least one edge leads from `a` back to `a`.
pub open spec fn on_cycle(g: Seq<Seq<usize>>, a: int) -> bool {
    exists|b: int| #[trigger] edge(g, a, b) && reach(g, b, a)
}

/// `c` lists, without repetition, exactly the vertices of the strongly
/// connected component of its first vertex.
pub open spec fn is_component(g: Seq<Seq<usize>>, c: Seq<usize>) -> bool {
    &&& c.len() > 0
    &&& forall|i: int| 0 <= i < c.len() ==> #[trigger] c[i] < g.len()
    &&& forall|i: int, j: int| 0 <= i < j < c.len() ==> c[i] != c[j]
    &&& forall|y: int| 0 <= y < g.len() ==> (c.contains(y as usize) <==> mates(g, c[0] as int, y))
}

/// No vertex lies in two of the listed sequences.
pub open spec fn pairwise_disjoint(cs: Seq<Seq<usize>>) -> bool {
    forall|j1: int, i1: int, j2: int, i2: int|
        0 <= j1 < cs.len() && 0 <= j2 < cs.len() && 0 <= i1 < cs[j1].len() && 0 <= i2 < cs[j2].len()
            && j1 != j2 ==> #[trigger] cs[j1][i1] != #[trigger] cs[j2][i2]
}

/// `found` lists the cycles of `g`: each entry is a strongly connected
/// component lying on a cycle, no vertex is listed twice, and every vertex
/// on a cycle is listed.
pub open spec fn cycles_of(g: Seq<Seq<usize>>, found: Seq<Seq<usize>>) -> bool {
    &&& forall|j: int| 0 <= j < found.len() ==> #[trigger] is_component(g, found[j])
    &&& forall|j: int| 0 <= j < found.len() ==> #[trigger] on_cycle(g, found[j][0] as int)
    &&& pairwise_disjoint(found)
    &&& forall|x: int|
        0 <= x < g.len() && #[trigger] on_cycle(g, x) ==> exists|j: int|
            0 <= j < found.len() && #[trigger] found[j].contains(x as usize)
}

pub proof fn lemma_reach_refl(g: Seq<Seq<usize>>, a: int)
    ensures
        reach(g, a, a),
{
    reveal(reach);
    assert(reach_in(g, a, a, 0));
}

pub proof fn lemma_reach_in_edge(g: Seq<Seq<usize>>, a: int, b: int)
    requires
        edge(g, a, b),
    ensures
        reach_in(g, a, b, 1),
{
    assert(reach_in(g, a, a, 0));
}

pub proof fn lemma_reach_edge(g: Seq<Seq<usize>>, a: int, b: int)
    requires
        edge(g, a, b),
    ensures
        reach(g, a, b),
{
    reveal(reach);
    lemma_reach_in_edge(g, a, b);
}

proof fn lemma_reach_in_trans(g: Seq<Seq<usize>>, a: int, b: int, c: int, k1: nat, k2: nat)
    requires
        reach_in(g, a, b, k1),
        reach_in(g, b, c, k2),
    ensures
        reach_in(g, a, c, k1 + k2),
    decreases k2,
{
    if k2 > 0 {
        if reach_in(g, b, c, (k2 - 1) as nat) {
            lemma_reach_in_trans(g, a, b, c, k1, (k2 - 1) as nat);
        } else {
            let d = choose|d: int| reach_in(g, b, d, (k2 - 1) as nat) && #[trigger] edge(g, d, c);
            lemma_reach_in_trans(g, a, b, d, k1, (k2 - 1) as nat);
            assert(reach_in(g, a, d, (k1 + k2 - 1) as nat) && edge(g, d, c));
        }
    }
}

pub proof fn lemma_reach_trans(g: Seq<Seq<usize>>, a: int, b: int, c: int)
    requires
        reach(g, a, b),
        reach(g, b, c),
    ensures
        reach(g, a, c),
{
    reveal(reach);
    let k1 = choose|k: nat| reach_in(g, a, b, k);
    let k2 = choose|k: nat| reach_in(g, b, c, k);
    lemma_reach_in_trans(g, a, b, c, k1, k2);
}

pub proof fn lemma_reach_step(g: Seq<Seq<usize>>, a: int, b: int, c: int)
    requires
        reach(g, a, b),
        edge(g, b, c),
    ensures
        reach(g, a, c),
{
    lemma_reach_edge(g, b, c);
    lemma_reach_trans(g, a, b, c);
}

/// A path between two distinct vertices starts with an edge.
proof fn lemma_first_edge_in(g: Seq<Seq<usize>>, a: int, b: int, k: nat) -> (c: int)
    requires
        reach_in(g, a, b, k),
        a != b,
    ensures
        edge(g, a, c),
        reach(g, c, b),
    decreases k,
{
    if reach_in(g, a, b, (k - 1) as nat) {
        lemma_first_edge_in(g, a, b, (k - 1) as nat)
    } else {
        let d = choose|d: int| reach_in(g, a, d, (k - 1) as nat) && #[trigger] edge(g, d, b);
        if d == a {
            lemma_reach_refl(g, b);
            b
        } else {
            let c = lemma_first_edge_in(g, a, d, (k - 1) as nat);
            lemma_reach_step(g, c, d, b);
            c
        }
    }
}

pub proof fn lemma_first_edge(g: Seq<Seq<usize>>, a: int, b: int) -> (c: int)
    requires
        reach(g, a, b),
        a != b,
    ensures
        edge(g, a, c),
        reach(g, c, b),
{
    reveal(reach);
    let k = choose|k: nat| reach_in(g, a, b, k);
    lemma_first_edge_in(g, a, b, k)
}

/// A set of vertices closed under edges holds everything reachable from
/// its members.
proof fn lemma_closed_in(g: Seq<Seq<usize>>, p: spec_fn(int) -> bool, a: int, b: int, k: nat)
    requires
        forall|x: int, y: int| #[trigger] p(x) && #[trigger] edge(g, x, y) ==> p(y),
        p(a),
        reach_in(g, a, b, k),
    ensures
        p(b),
    decreases k,
{
    if k > 0 {
        if reach_in(g, a, b, (k - 1) as nat) {
            lemma_closed_in(g, p, a, b, (k - 1) as nat);
        } else {
            let d = choose|d: int| reach_in(g, a, d, (k - 1) as nat) && #[trigger] edge(g, d, b);
            lemma_closed_in(g, p, a, d, (k - 1) as nat);
        }
    }
}

pub proof fn lemma_closed(g: Seq<Seq<usize>>, p: spec_fn(int) -> bool, a: int, b: int)
    requires
        forall|x: int, y: int| #[trigger] p(x) && #[trigger] edge(g, x, y) ==> p(y),
        p(a),
        reach(g, a, b),
    ensures
        p(b),
{
    reveal(reach);
    let k = choose|k: nat| reach_in(g, a, b, k);
    lemma_closed_in(g, p, a, b, k);
}

/// A path from inside a set of vertices to outside it crosses an edge
/// leaving the set.
proof fn lemma_exit_in(g: Seq<Seq<usize>>, p: spec_fn(int) -> bool, a: int, b: int, k: nat) -> (cd:
    (int, int))
    requires
        p(a),
        !p(b),
        reach_in(g, a, b, k),
    ensures
        p(cd.0),
        !p(cd.1),
        edge(g, cd.0, cd.1),
        reach(g, cd.1, b),
    decreases k,
{
    if reach_in(g, a, b, (k - 1) as nat) {
        lemma_exit_in(g, p, a, b, (k - 1) as nat)
    } else {
        let d = choose|d: int| reach_in(g, a, d, (k - 1) as nat) && #[trigger] edge(g, d, b);
        if p(d) {
            lemma_reach_refl(g, b);
            (d, b)
        } else {
            let cd = lemma_exit_in(g, p, a, d, (k - 1) as nat);
            lemma_reach_step(g, cd.1, d, b);
            cd
        }
    }
}

pub proof fn lemma_exit(g: Seq<Seq<usize>>, p: spec_fn(int) -> bool, a: int, b: int) -> (cd: (
    int,
    int,
))
    requires
        p(a),
        !p(b),
        reach(g, a, b),
    ensures
        p(cd.0),
        !p(cd.1),
        edge(g, cd.0, cd.1),
        reach(g, cd.1, b),
{
    reveal(reach);
    let k = choose|k: nat| reach_in(g, a, b, k);
    lemma_exit_in(g, p, a, b, k)
}


// ---------------------------------------------------------------------
// Tarjan's algorithm
// ---------------------------------------------------------------------

/// Rows of numbers by their contents.
pub open spec fn rows(v: Seq<Vec<usize>>) -> Seq<Seq<usize>> {
    v.map_values(|r: Vec<usize>| r@)
}

/// The search as the arrays and stacks hold it.
pub open spec fn search_of(
    index: Seq<usize>,
    lowlink: Seq<usize>,
    on_stack: Seq<bool>,
    scc_stack: Seq<usize>,
    work: Seq<(usize, usize)>,
    next_index: usize,
    comps: Seq<Seq<usize>>,
    found: Seq<Vec<usize>>,
) -> Search {
    Search {
        idx: index,
        low: lowlink,
        ons: on_stack,
        stk: scc_stack,
        wrk: work,
        next: next_index as nat,
        comps,
        found: rows(found),
    }
}

/// The edges and frames left to follow, each frame counting one more for
/// its own exhaustion.
pub open spec fn work_left(g: Seq<Seq<usize>>, w: Seq<(usize, usize)>) -> nat
    decreases w.len(),
{
    if w.len() == 0 {
        0
    } else {
        let f = w.last();
        work_left(g, w.drop_last()) + if f.1 <= g[f.0 as int].len() {
            (g[f.0 as int].len() - f.1 + 1) as nat
        } else {
            1nat
        }
    }
}

/// Whether `row` holds `x`.
fn row_holds(row: &Vec<usize>, x: usize) -> (b: bool)
    ensures
        b == row@.contains(x),
{
    let mut i: usize = 0;
    while i < row.len()
        invariant
            0 <= i <= row@.len(),
            forall|j: int| 0 <= j < i ==> row@[j] != x,
        decreases row@.len() - i,
    {
        if row[i] == x {
            return true;
        }
        i = i + 1;
    }
    false
}

/// The cycles of a graph given by its edge lists: its strongly connected
/// components of more than one vertex, and its single vertices with an
/// edge to themselves, each listed once from the vertex first discovered.
/// Components are completed in the order Tarjan's search completes them,
/// each listing its vertices in discovery order.
pub fn strongly_connected_cycles(edges: &Vec<Vec<usize>>) -> (found: Vec<Vec<usize>>)
    requires
        graph_ok(rows(edges@)),
    ensures
        cycles_of(rows(edges@), rows(found@)),
{
    let ghost g = rows(edges@);
    let n = edges.len();
    let mut index: Vec<usize> = Vec::new();
    let mut lowlink: Vec<usize> = Vec::new();
    let mut on_stack: Vec<bool> = Vec::new();
    let mut i: usize = 0;
    while i < n
        invariant
            0 <= i <= n,
            index@.len() == i && lowlink@.len() == i && on_stack@.len() == i,
            forall|j: int| 0 <= j < i ==> #[trigger] index@[j] == usize::MAX,
            forall|j: int| 0 <= j < i ==> !#[trigger] on_stack@[j],
        decreases n - i,
    {
        index.push(usize::MAX);
        lowlink.push(0);
        on_stack.push(false);
        i = i + 1;
    }
    let mut scc_stack: Vec<usize> = Vec::new();
    let mut work: Vec<(usize, usize)> = Vec::new();
    let mut next_index: usize = 0;
    let mut found: Vec<Vec<usize>> = Vec::new();
    let ghost mut comps: Seq<Seq<usize>> = Seq::empty();
    proof {
        lemma_initial(g, search_of(index@, lowlink@, on_stack@, scc_stack@, work@, next_index, comps, found@));
    }
    let mut root: usize = 0;
    while root < n
        invariant
            g == rows(edges@),
            n == edges@.len(),
            0 <= root <= n,
            work@.len() == 0,
            index@.len() == n && lowlink@.len() == n && on_stack@.len() == n,
            search_ok(g, search_of(index@, lowlink@, on_stack@, scc_stack@, work@, next_index, comps, found@)),
            scc_stack@.len() == 0,
            forall|x: int| 0 <= x < root ==> #[trigger] index@[x] != usize::MAX,
        decreases n - root,
    {
        if index[root] != usize::MAX {
            root = root + 1;
            continue;
        }
        let ghost s0 = search_of(index@, lowlink@, on_stack@, scc_stack@, work@, next_index, comps, found@);
        proof {
            lemma_room(g, s0, root as int);
        }
        index.set(root, next_index);
        lowlink.set(root, next_index);
        next_index = next_index + 1;
        scc_stack.push(root);
        on_stack.set(root, true);
        work.push((root, 0));
        proof {
            assert(scc_stack@ =~= seq![root]);
            assert(work@ =~= seq![(root, 0usize)]);
            lemma_root(g, s0, search_of(index@, lowlink@, on_stack@, scc_stack@, work@, next_index, comps, found@), root);
        }
        while work.len() > 0
            invariant
                g == rows(edges@),
                n == edges@.len(),
                0 <= root < n,
                index@.len() == n && lowlink@.len() == n && on_stack@.len() == n,
                search_ok(g, search_of(index@, lowlink@, on_stack@, scc_stack@, work@, next_index, comps, found@)),
                forall|x: int| 0 <= x <= root ==> #[trigger] index@[x] != usize::MAX,
            decreases n - next_index, work_left(g, work@),
        {
            let ghost s0 = search_of(index@, lowlink@, on_stack@, scc_stack@, work@, next_index, comps, found@);
            let ghost w0 = work@;
            let (v, edge_pos) = work.pop().unwrap();
            proof {
                lemma_top(g, s0, v, edge_pos);
                assert(work@ == w0.drop_last());
                assert(g[v as int] == edges@[v as int]@);
            }
            if edge_pos < edges[v].len() {
                work.push((v, edge_pos + 1));
                let w = edges[v][edge_pos];
                proof {
                    assert(g[v as int][edge_pos as int] == w);
                    assert(w < n);
                    assert(work@ == w0.drop_last().push((v, (edge_pos + 1) as usize)));
                    assert(work@.drop_last() =~= w0.drop_last());
                    assert(w0.last() == (v, edge_pos));
                    assert(work_left(g, work@) < work_left(g, w0));
                }
                if index[w] == usize::MAX {
                    proof {
                        lemma_room(g, s0, w as int);
                    }
                    index.set(w, next_index);
                    lowlink.set(w, next_index);
                    next_index = next_index + 1;
                    scc_stack.push(w);
                    on_stack.set(w, true);
                    work.push((w, 0));
                    proof {
                        lemma_tree(
                            g,
                            s0,
                            search_of(index@, lowlink@, on_stack@, scc_stack@, work@, next_index, comps, found@),
                            v,
                            edge_pos,
                            w,
                        );
                    }
                } else {
                    if on_stack[w] && index[w] < lowlink[v] {
                        lowlink.set(v, index[w]);
                    }
                    proof {
                        lemma_advance(
                            g,
                            s0,
                            search_of(index@, lowlink@, on_stack@, scc_stack@, work@, next_index, comps, found@),
                            v,
                            edge_pos,
                            w,
                        );
                    }
                }
                continue;
            }
            // `v` is exhausted: hand its low link to the frame below and,
            // when it is the first of its component, pop the component.
            if work.len() > 0 {
                let parent = work[work.len() - 1].0;
                proof {
                    lemma_parent_differs(g, s0, v, edge_pos);
                }
                if lowlink[v] < lowlink[parent] {
                    lowlink.set(parent, lowlink[v]);
                }
            }
            proof {
                assert(lowlink@ == handed_low(s0, v));
            }
            if lowlink[v] == index[v] {
                let ghost p = lemma_stack_position(g, s0, v as int);
                let mut j: usize = scc_stack.len();
                while scc_stack[j - 1] != v
                    invariant
                        0 <= p < j <= scc_stack@.len(),
                        scc_stack@ == s0.stk,
                        s0.stk[p] == v,
                    decreases j,
                {
                    j = j - 1;
                }
                let start = j - 1;
                let ghost ps = start as int;
                proof {
                    lemma_closing_members(g, s0, v, ps);
                }
                let component = scc_stack.split_off(start);
                let ghost ons0 = on_stack@;
                let mut m: usize = 0;
                while m < component.len()
                    invariant
                        0 <= m <= component@.len(),
                        0 <= ps < s0.stk.len(),
                        component@ == s0.stk.subrange(ps, s0.stk.len() as int),
                        component@.len() == s0.stk.len() - ps,
                        on_stack@.len() == n,
                        forall|i: int| ps <= i < s0.stk.len() ==> #[trigger] s0.stk[i] < n,
                        forall|i: int| 0 <= i < m ==> !on_stack@[#[trigger] component@[i] as int],
                        forall|x: int|
                            0 <= x < n && (forall|i: int| 0 <= i < m ==> component@[i] != x as usize)
                                ==> #[trigger] on_stack@[x] == ons0[x],
                    decreases component@.len() - m,
                {
                    proof {
                        assert(component@[m as int] == s0.stk[ps + m]);
                    }
                    on_stack.set(component[m], false);
                    m = m + 1;
                }
                let ghost comp = component@;
                proof {
                    assert forall|x: int| 0 <= x < n implies #[trigger] on_stack@[x] == (s0.ons[x] && s0.idx[x]
                        < s0.idx[v as int]) by {
                        if comp.contains(x as usize) {
                            let i = choose|i: int| 0 <= i < comp.len() && comp[i] == x as usize;
                            assert(!on_stack@[comp[i] as int]);
                        } else {
                            assert(forall|i: int| 0 <= i < m ==> component@[i] != x as usize);
                        }
                    }
                    assert(on_stack@ =~= Seq::new(s0.ons.len(), |x: int| s0.ons[x] && s0.idx[x] < s0.idx[v as int]));
                }
                let is_cycle = component.len() > 1 || row_holds(&edges[v], v);
                let ghost found0 = found@;
                if is_cycle {
                    found.push(component);
                }
                proof {
                    assert(is_cycle == cycle_flag(g, comp, v));
                    if is_cycle {
                        assert(rows(found@) =~= rows(found0).push(comp));
                    }
                    comps = comps.push(comp);
                    lemma_pop(
                        g,
                        s0,
                        search_of(index@, lowlink@, on_stack@, scc_stack@, work@, next_index, comps, found@),
                        v,
                        ps,
                    );
                }
            } else {
                proof {
                    lemma_keep(
                        g,
                        s0,
                        search_of(index@, lowlink@, on_stack@, scc_stack@, work@, next_index, comps, found@),
                        v,
                    );
                }
            }
        }
        proof {
            lemma_idle(g, search_of(index@, lowlink@, on_stack@, scc_stack@, work@, next_index, comps, found@));
        }
        root = root + 1;
    }
    proof {
        assert forall|x: int| 0 <= x < g.len() implies visited(
            search_of(index@, lowlink@, on_stack@, scc_stack@, work@, next_index, comps, found@),
            x,
        ) by {
            assert(index@[x] != usize::MAX);
        }
        lemma_done(g, search_of(index@, lowlink@, on_stack@, scc_stack@, work@, next_index, comps, found@));
    }
    found
}


// ---------------------------------------------------------------------
// Module-level bindings
// ---------------------------------------------------------------------

/// A module-level binding: its name and every single-segment name its
/// initializer mentions, in order.
pub struct ConstDecl {
    pub name: String,
    pub references: Vec<String>,
}

/// Bindings that depend on one another in a cycle: their positions in the
/// list of bindings, and their names in the same order.
pub struct ConstCycle {
    pub members: Vec<usize>,
    pub names: Vec<String>,
}

/// The names of the bindings.
pub open spec fn names_of(consts: Seq<ConstDecl>) -> Seq<Seq<char>> {
    consts.map_values(|c: ConstDecl| c.name@)
}

/// The position of the last name equal to `name`.
pub open spec fn last_named(names: Seq<Seq<char>>, name: Seq<char>) -> Option<int>
    decreases names.len(),
{
    if names.len() == 0 {
        None
    } else if names.last() == name {
        Some(names.len() - 1)
    } else {
        last_named(names.drop_last(), name)
    }
}

/// The bindings that the first `k` references name, in order; a reference
/// that names no binding contributes nothing.
pub open spec fn targets(names: Seq<Seq<char>>, refs: Seq<String>, k: int) -> Seq<usize>
    decreases k,
{
    if k <= 0 {
        Seq::empty()
    } else {
        let prev = targets(names, refs, k - 1);
        match last_named(names, refs[k - 1]@) {
            Some(j) => prev.push(j as usize),
            None => prev,
        }
    }
}

/// The dependency graph of the bindings: an edge from each binding to
/// each binding its initializer names.
pub open spec fn dependency_graph(consts: Seq<ConstDecl>) -> Seq<Seq<usize>> {
    Seq::new(
        consts.len(),
        |i: int| targets(names_of(consts), consts[i].references@, consts[i].references@.len() as int),
    )
}

/// The members of each reported cycle.
pub open spec fn cycle_members(cycles: Seq<ConstCycle>) -> Seq<Seq<usize>> {
    cycles.map_values(|c: ConstCycle| c.members@)
}

proof fn lemma_last_named_range(names: Seq<Seq<char>>, name: Seq<char>)
    ensures
        last_named(names, name) matches Some(j) ==> 0 <= j < names.len() && names[j] == name,
    decreases names.len(),
{
    if names.len() > 0 && names.last() != name {
        lemma_last_named_range(names.drop_last(), name);
    }
}

proof fn lemma_targets_range(names: Seq<Seq<char>>, refs: Seq<String>, k: int)
    requires
        names.len() <= usize::MAX,
    ensures
        forall|e: int| 0 <= e < targets(names, refs, k).len() ==> #[trigger] targets(names, refs, k)[e] < names.len(),
        targets(names, refs, k).len() <= if k < 0 { 0 } else { k },
    decreases k,
{
    if k > 0 {
        lemma_targets_range(names, refs, k - 1);
        lemma_last_named_range(names, refs[k - 1]@);
    }
}

/// A reference list naming no binding other than by `name0`, in a list of
/// one binding named `name0`, names nothing when it never says `name0`.
proof fn lemma_targets_alone(names: Seq<Seq<char>>, refs: Seq<String>, k: int)
    requires
        names.len() == 1,
        forall|i: int| 0 <= i < refs.len() ==> #[trigger] refs[i]@ != names[0],
        k <= refs.len(),
    ensures
        targets(names, refs, k).len() == 0,
    decreases k,
{
    if k > 0 {
        lemma_targets_alone(names, refs, k - 1);
        assert(names.drop_last().len() == 0);
        assert(refs[k - 1]@ != names[0]);
        assert(names.last() == names[0]);
        assert(last_named(names.drop_last(), refs[k - 1]@) is None);
        assert(last_named(names, refs[k - 1]@) is None);
    }
}

/// The position of the last binding named `name`.
fn last_binding_named(consts: &Vec<ConstDecl>, name: &str) -> (r: Option<usize>)
    ensures
        match last_named(names_of(consts@), name@) {
            Some(j) => r == Some(j as usize),
            None => r is None,
        },
{
    let ghost names = names_of(consts@);
    let mut i: usize = consts.len();
    assert(names.take(i as int) =~= names);
    while i > 0
        invariant
            0 <= i <= consts@.len(),
            names == names_of(consts@),
            last_named(names, name@) == last_named(names.take(i as int), name@),
        decreases i,
    {
        let ghost t = names.take(i as int);
        assert(t.drop_last() =~= names.take(i - 1));
        assert(t.last() == consts@[i - 1].name@);
        if crate::text::str_eq(consts[i - 1].name.as_str(), name) {
            return Some(i - 1);
        }
        i = i - 1;
    }
    None
}

/// Whether binding `c` names itself.
fn names_itself(c: &ConstDecl) -> (b: bool)
    ensures
        b == exists|i: int| 0 <= i < c.references@.len() && #[trigger] c.references@[i]@ == c.name@,
{
    let mut i: usize = 0;
    while i < c.references.len()
        invariant
            0 <= i <= c.references@.len(),
            forall|j: int| 0 <= j < i ==> #[trigger] c.references@[j]@ != c.name@,
        decreases c.references@.len() - i,
    {
        if crate::text::str_eq(c.references[i].as_str(), c.name.as_str()) {
            return true;
        }
        i = i + 1;
    }
    false
}

/// The dependency graph of the bindings, as edge lists.
fn dependency_edges(consts: &Vec<ConstDecl>) -> (edges: Vec<Vec<usize>>)
    ensures
        rows(edges@) == dependency_graph(consts@),
{
    let ghost names = names_of(consts@);
    let mut edges: Vec<Vec<usize>> = Vec::new();
    let mut i: usize = 0;
    while i < consts.len()
        invariant
            0 <= i <= consts@.len(),
            names == names_of(consts@),
            edges@.len() == i,
            forall|a: int| 0 <= a < i ==> #[trigger] edges@[a]@ == targets(
                names,
                consts@[a].references@,
                consts@[a].references@.len() as int,
            ),
        decreases consts@.len() - i,
    {
        let refs = &consts[i].references;
        let mut row: Vec<usize> = Vec::new();
        let mut k: usize = 0;
        while k < refs.len()
            invariant
                0 <= k <= refs@.len(),
                names == names_of(consts@),
                row@ == targets(names, refs@, k as int),
            decreases refs@.len() - k,
        {
            match last_binding_named(consts, refs[k].as_str()) {
                Some(j) => row.push(j),
                None => {},
            }
            k = k + 1;
        }
        edges.push(row);
        i = i + 1;
    }
    assert(rows(edges@) =~= dependency_graph(consts@));
    edges
}

/// The dependency cycles among module-level bindings: each strongly
/// connected component of the dependency graph that lies on a cycle (more
/// than one binding, or one binding that names itself), listed once, with
/// its bindings in the order the search discovered them and their names in
/// the same order. Every binding on a cycle is listed.
pub fn detect_const_cycles(consts: &Vec<ConstDecl>) -> (r: Vec<ConstCycle>)
    ensures
        cycles_of(dependency_graph(consts@), cycle_members(r@)),
        forall|j: int| 0 <= j < r@.len() ==> (#[trigger] r@[j]).names@.len() == r@[j].members@.len(),
        forall|j: int, i: int|
            0 <= j < r@.len() && 0 <= i < r@[j].members@.len() ==> #[trigger] r@[j].names@[i]@
                == consts@[r@[j].members@[i] as int].name@,
{
    let ghost g = dependency_graph(consts@);
    if consts.len() < 2 && (consts.len() == 0 || !names_itself(&consts[0])) {
        // Fewer than two bindings and no self-reference: no cycle is
        // possible.
        proof {
            if consts@.len() == 1 {
                lemma_targets_alone(names_of(consts@), consts@[0].references@, consts@[0].references@.len() as int);
                assert(g[0].len() == 0);
            }
            assert forall|x: int| 0 <= x < g.len() && #[trigger] on_cycle(g, x) implies exists|j: int|
                0 <= j < cycle_members(Seq::<ConstCycle>::empty()).len()
                    && #[trigger] cycle_members(Seq::<ConstCycle>::empty())[j].contains(x as usize) by {
                let b = choose|b: int| #[trigger] edge(g, x, b) && reach(g, b, x);
                assert(x == 0);
            }
            assert(cycle_members(Seq::<ConstCycle>::empty()) =~= Seq::<Seq<usize>>::empty());
        }
        return Vec::new();
    }
    let edges = dependency_edges(consts);
    proof {
        assert forall|a: int, e: int| 0 <= a < g.len() && 0 <= e < g[a].len() implies #[trigger] g[a][e] < g.len() by {
            lemma_targets_range(names_of(consts@), consts@[a].references@, consts@[a].references@.len() as int);
        }
        assert forall|a: int| 0 <= a < g.len() implies #[trigger] g[a].len() <= usize::MAX by {
            assert(rows(edges@)[a] == edges@[a]@);
            assert(edges@[a]@.len() == edges@[a].len());
        }
    }
    let found = strongly_connected_cycles(&edges);
    proof {
        assert forall|a: int, i: int| 0 <= a < found@.len() && 0 <= i < found@[a]@.len() implies #[trigger] found@[a]@[i] < consts@.len() by {
            assert(rows(found@)[a] == found@[a]@);
            assert(is_component(g, rows(found@)[a]));
        }
    }
    let mut r: Vec<ConstCycle> = Vec::new();
    let mut j: usize = 0;
    while j < found.len()
        invariant
            0 <= j <= found@.len(),
            r@.len() == j,
            forall|a: int| 0 <= a < j ==> (#[trigger] r@[a]).members@ == found@[a]@,
            forall|a: int| 0 <= a < j ==> (#[trigger] r@[a]).names@.len() == r@[a].members@.len(),
            forall|a: int, i: int|
                0 <= a < j && 0 <= i < r@[a].members@.len() ==> #[trigger] r@[a].names@[i]@
                    == consts@[r@[a].members@[i] as int].name@,
            forall|a: int, i: int| 0 <= a < found@.len() && 0 <= i < found@[a]@.len() ==> #[trigger] found@[a]@[i] < consts@.len(),
        decreases found@.len() - j,
    {
        let comp = &found[j];
        let mut names: Vec<String> = Vec::new();
        let mut i: usize = 0;
        while i < comp.len()
            invariant
                0 <= i <= comp@.len(),
                0 <= j < found@.len(),
                comp@ == found@[j as int]@,
                names@.len() == i,
                forall|a: int, i2: int| 0 <= a < found@.len() && 0 <= i2 < found@[a]@.len() ==> #[trigger] found@[a]@[i2] < consts@.len(),
                forall|k: int| 0 <= k < i ==> #[trigger] names@[k]@ == consts@[comp@[k] as int].name@,
            decreases comp@.len() - i,
        {
            proof {
                assert(comp@[i as int] == found@[j as int]@[i as int]);
            }
            names.push(consts[comp[i]].name.clone());
            i = i + 1;
        }
        r.push(ConstCycle { members: comp.clone(), names });
        j = j + 1;
    }
    proof {
        assert(cycle_members(r@) =~= rows(found@));
    }
    r
}


/// A path met in a binding's initializer, in source order: whether it has
/// a qualifier, and its segment's name when the segment is a plain name.
pub struct PathRef {
    pub qualified: bool,
    pub name: Option<String>,
}

/// The names the first `k` paths can bind in this module: each unqualified
/// path's plain name, once, in the order of first appearance.
pub open spec fn path_names(paths: Seq<PathRef>, k: int) -> Seq<Seq<char>>
    decreases k,
{
    if k <= 0 {
        Seq::empty()
    } else {
        let prev = path_names(paths, k - 1);
        let p = paths[k - 1];
        if !p.qualified && p.name is Some && !prev.contains(p.name->Some_0@) {
            prev.push(p.name->Some_0@)
        } else {
            prev
        }
    }
}

/// The names an initializer refers to, as its references: every
/// unqualified single-segment path's name, once, in order. A qualified path
/// resolves elsewhere and cannot name a binding of this module. A name that
/// turns out not to be a binding simply adds no edge.
pub fn path_references(paths: &Vec<PathRef>) -> (names: Vec<String>)
    ensures
        names@.map_values(|n: String| n@) == path_names(paths@, paths@.len() as int),
{
    let mut names: Vec<String> = Vec::new();
    let mut k: usize = 0;
    while k < paths.len()
        invariant
            0 <= k <= paths@.len(),
            names@.map_values(|n: String| n@) == path_names(paths@, k as int),
        decreases paths@.len() - k,
    {
        let ghost prev = names@.map_values(|n: String| n@);
        let p = &paths[k];
        if !p.qualified {
            if let Some(name) = &p.name {
                let mut i: usize = 0;
                let mut seen = false;
                while i < names.len() && !seen
                    invariant
                        0 <= i <= names@.len(),
                        prev == names@.map_values(|n: String| n@),
                        !seen ==> forall|j: int| 0 <= j < i ==> #[trigger] names@[j]@ != name@,
                        seen ==> prev.contains(name@),
                    decreases names@.len() - i + if seen { 0int } else { 1int },
                {
                    if crate::text::str_eq(names[i].as_str(), name.as_str()) {
                        seen = true;
                        assert(prev[i as int] == name@);
                    } else {
                        i = i + 1;
                    }
                }
                proof {
                    if !seen && prev.contains(name@) {
                        let j = choose|j: int| 0 <= j < prev.len() && prev[j] == name@;
                        assert(names@[j]@ == name@);
                    }
                }
                if !seen {
                    names.push(name.clone());
                    proof {
                        assert(names@.map_values(|n: String| n@) =~= prev.push(name@));
                    }
                }
            }
        }
        k = k + 1;
    }
    names
}

} // verus!

//! The state of the depth-first search for components, its invariant,
//! and how each step of the search keeps it.
use super::{
    cycles_of, edge, graph_ok, is_component, lemma_reach_edge, lemma_reach_refl, lemma_reach_step,
    lemma_closed, lemma_exit, lemma_first_edge, lemma_reach_trans, mates, on_cycle,
    pairwise_disjoint,
    reach,
};
use vstd::prelude::*;

verus! {

// ---------------------------------------------------------------------
// The state of the search
// ---------------------------------------------------------------------

/// The search as a value: each vertex's discovery number (`usize::MAX`
/// while undiscovered) and low link, whether it is on the component
/// stack, the component stack, the depth-first stack of (vertex, next edge
/// to follow), the next discovery number, every component completed so
/// far, and those of them that are cycles.
pub struct Search {
    pub idx: Seq<usize>,
    pub low: Seq<usize>,
    pub ons: Seq<bool>,
    pub stk: Seq<usize>,
    pub wrk: Seq<(usize, usize)>,
    pub next: nat,
    pub comps: Seq<Seq<usize>>,
    pub found: Seq<Seq<usize>>,
}

pub open spec fn visited(s: Search, x: int) -> bool {
    s.idx[x] != usize::MAX
}

/// `x` is on the depth-first stack.
pub open spec fn gray(s: Search, x: int) -> bool {
    exists|k: int| 0 <= k < s.wrk.len() && #[trigger] s.wrk[k].0 == x
}

/// `x` is finished but its component is not complete yet.
pub open spec fn settled(s: Search, x: int) -> bool {
    s.ons[x] && !gray(s, x)
}

/// `x` belongs to a completed component.
pub open spec fn popped(s: Search, x: int) -> bool {
    visited(s, x) && !s.ons[x]
}

pub open spec fn visited_set(s: Search, n: int) -> Set<int> {
    Set::new(|x: int| 0 <= x < n && visited(s, x))
}

/// The arrays cover the vertices, and exactly `next` vertices have numbers.
#[verifier::opaque]
pub open spec fn arrays_ok(g: Seq<Seq<usize>>, s: Search) -> bool {
    let n = g.len() as int;
    &&& s.idx.len() == n && s.low.len() == n && s.ons.len() == n
    &&& s.next <= n
    &&& visited_set(s, n).finite() && visited_set(s, n).len() == s.next
}

/// Discovery numbers are below `next` and distinct.
#[verifier::opaque]
pub open spec fn numbers_ok(g: Seq<Seq<usize>>, s: Search) -> bool {
    let n = g.len() as int;
    &&& forall|x: int| 0 <= x < n && visited(s, x) ==> #[trigger] s.idx[x] < s.next
    &&& forall|x: int, y: int|
        0 <= x < n && 0 <= y < n && x != y && visited(s, x) && visited(s, y) ==> #[trigger] s.idx[x]
            != #[trigger] s.idx[y]
}

/// `x` is on the component stack.
#[verifier::opaque]
pub open spec fn stacked(stk: Seq<usize>, x: int) -> bool {
    stk.contains(x as usize)
}

/// A vertex marked on the component stack is discovered and is there.
#[verifier::opaque]
pub open spec fn onstack_ok(g: Seq<Seq<usize>>, s: Search) -> bool {
    forall|x: int| 0 <= x < g.len() && #[trigger] s.ons[x] ==> visited(s, x) && stacked(s.stk, x)
}

/// The component stack holds marked vertices in increasing number.
#[verifier::opaque]
pub open spec fn stack_ok(g: Seq<Seq<usize>>, s: Search) -> bool {
    &&& forall|i: int| 0 <= i < s.stk.len() ==> #[trigger] s.stk[i] < g.len() && s.ons[s.stk[i] as int]
    &&& forall|i: int, j: int|
        0 <= i < j < s.stk.len() ==> s.idx[#[trigger] s.stk[i] as int] < s.idx[#[trigger] s.stk[j] as int]
}

/// The depth-first stack holds marked vertices in increasing number, each
/// frame's next edge at most its number of edges, each frame below the
/// top having followed its previous edge to the frame above, and its
/// bottom is the bottom of the component stack.
#[verifier::opaque]
pub open spec fn work_ok(g: Seq<Seq<usize>>, s: Search) -> bool {
    &&& forall|k: int|
        0 <= k < s.wrk.len() ==> #[trigger] s.wrk[k].0 < g.len() && s.wrk[k].1 <= g[s.wrk[k].0 as int].len()
            && s.ons[s.wrk[k].0 as int]
    &&& forall|k1: int, k2: int|
        0 <= k1 < k2 < s.wrk.len() ==> s.idx[#[trigger] s.wrk[k1].0 as int] < s.idx[
            #[trigger] s.wrk[k2].0 as int]
    &&& forall|k: int|
        0 <= k < s.wrk.len() - 1 ==> #[trigger] s.wrk[k].1 >= 1 && g[s.wrk[k].0 as int][s.wrk[k].1
            - 1] == s.wrk[k + 1].0
    &&& s.wrk.len() > 0 ==> s.stk.len() > 0 && s.stk[0] == s.wrk[0].0
    &&& s.wrk.len() == 0 ==> s.stk.len() == 0
}

/// A marked vertex's low link is at most its number.
#[verifier::opaque]
pub open spec fn low_le_ok(g: Seq<Seq<usize>>, s: Search) -> bool {
    forall|x: int| 0 <= x < g.len() && #[trigger] s.ons[x] ==> s.low[x] <= s.idx[x]
}

/// A marked vertex's low link is the number of a marked vertex it reaches.
#[verifier::opaque]
pub open spec fn low_wit_ok(g: Seq<Seq<usize>>, s: Search) -> bool {
    forall|x: int|
        0 <= x < g.len() && s.ons[x] ==> exists|y: int|
            0 <= y < g.len() && s.ons[y] && #[trigger] s.idx[y] == #[trigger] s.low[x] && reach(g, x, y)
}

/// A finished marked vertex's low link is at least that of the nearest
/// unfinished vertex discovered before it.
#[verifier::opaque]
pub open spec fn low_chain_ok(g: Seq<Seq<usize>>, s: Search) -> bool {
    forall|x: int, k: int|
        0 <= x < g.len() && settled(s, x) && 0 <= k < s.wrk.len() && s.idx[#[trigger] s.wrk[k].0 as int]
            < s.idx[x] && (k + 1 == s.wrk.len() || s.idx[x] < s.idx[s.wrk[k + 1].0 as int])
            ==> s.low[s.wrk[k].0 as int] <= #[trigger] s.low[x]
}

/// An unfinished vertex reaches every marked vertex numbered after it.
#[verifier::opaque]
pub open spec fn reach_down_ok(g: Seq<Seq<usize>>, s: Search) -> bool {
    forall|k: int, x: int|
        0 <= k < s.wrk.len() && 0 <= x < g.len() && #[trigger] s.ons[x] && s.idx[
            #[trigger] s.wrk[k].0 as int] <= s.idx[x] ==> reach(g, s.wrk[k].0 as int, x)
}

/// A marked vertex reaches an unfinished vertex numbered no later.
#[verifier::opaque]
pub open spec fn reach_up_ok(g: Seq<Seq<usize>>, s: Search) -> bool {
    forall|x: int|
        0 <= x < g.len() && #[trigger] s.ons[x] ==> exists|k: int|
            0 <= k < s.wrk.len() && s.idx[#[trigger] s.wrk[k].0 as int] <= s.idx[x] && reach(
                g,
                x,
                s.wrk[k].0 as int,
            )
}

/// The edges of a finished marked vertex lead to discovered vertices, and
/// to vertices whose number bounds its low link while they are marked.
#[verifier::opaque]
pub open spec fn settled_edges_ok(g: Seq<Seq<usize>>, s: Search) -> bool {
    forall|x: int, e: int|
        0 <= x < g.len() && settled(s, x) && 0 <= e < g[x].len() ==> visited(s, #[trigger] g[x][e] as int)
            && (s.ons[g[x][e] as int] ==> s.low[x] <= s.idx[g[x][e] as int])
}

/// The same for the edges an unfinished vertex has followed.
#[verifier::opaque]
pub open spec fn gray_edges_ok(g: Seq<Seq<usize>>, s: Search) -> bool {
    forall|k: int, e: int|
        0 <= k < s.wrk.len() && 0 <= e < s.wrk[k].1 ==> visited(
            s,
            #[trigger] g[s.wrk[k].0 as int][e] as int,
        ) && (s.ons[g[s.wrk[k].0 as int][e] as int] ==> s.low[s.wrk[k].0 as int] <= s.idx[g[
            s.wrk[k].0 as int][e] as int])
}

/// Completed components have edges only into completed components.
#[verifier::opaque]
pub open spec fn popped_edges_ok(g: Seq<Seq<usize>>, s: Search) -> bool {
    forall|x: int, e: int|
        0 <= x < g.len() && popped(s, x) && 0 <= e < g[x].len() ==> popped(s, #[trigger] g[x][e] as int)
}

/// The completed components: each a strongly connected component of
/// vertices no longer marked, together holding every such vertex once; the
/// cycles among them are those listed as found.
#[verifier::opaque]
pub open spec fn comps_ok(g: Seq<Seq<usize>>, s: Search) -> bool {
    let n = g.len() as int;
    &&& forall|j: int| 0 <= j < s.comps.len() ==> #[trigger] is_component(g, s.comps[j])
    &&& forall|j: int, i: int|
        0 <= j < s.comps.len() && 0 <= i < s.comps[j].len() ==> popped(s, #[trigger] s.comps[j][i] as int)
    &&& forall|x: int|
        0 <= x < n && #[trigger] popped(s, x) ==> exists|j: int, i: int|
            0 <= j < s.comps.len() && 0 <= i < s.comps[j].len() && #[trigger] s.comps[j][i] == x
    &&& pairwise_disjoint(s.comps)
    &&& forall|j: int| 0 <= j < s.found.len() ==> #[trigger] s.comps.contains(s.found[j])
    &&& forall|j: int| 0 <= j < s.found.len() ==> #[trigger] on_cycle(g, s.found[j][0] as int)
    &&& forall|j: int|
        0 <= j < s.comps.len() && #[trigger] on_cycle(g, s.comps[j][0] as int) ==> s.found.contains(
            s.comps[j],
        )
    &&& pairwise_disjoint(s.found)
}

/// The invariant of the search.
pub open spec fn search_ok(g: Seq<Seq<usize>>, s: Search) -> bool {
    &&& graph_ok(g)
    &&& arrays_ok(g, s)
    &&& numbers_ok(g, s)
    &&& onstack_ok(g, s)
    &&& stack_ok(g, s)
    &&& work_ok(g, s)
    &&& low_le_ok(g, s)
    &&& low_wit_ok(g, s)
    &&& low_chain_ok(g, s)
    &&& reach_down_ok(g, s)
    &&& reach_up_ok(g, s)
    &&& settled_edges_ok(g, s)
    &&& gray_edges_ok(g, s)
    &&& popped_edges_ok(g, s)
    &&& comps_ok(g, s)
}

/// The search before any vertex is discovered.
#[verifier::spinoff_prover]
#[verifier::rlimit(40)]
pub proof fn lemma_initial(g: Seq<Seq<usize>>, s: Search)
    requires
        graph_ok(g),
        s.idx.len() == g.len() && s.low.len() == g.len() && s.ons.len() == g.len(),
        forall|x: int| 0 <= x < g.len() ==> #[trigger] s.idx[x] == usize::MAX,
        forall|x: int| 0 <= x < g.len() ==> !#[trigger] s.ons[x],
        s.stk.len() == 0,
        s.wrk.len() == 0,
        s.next == 0,
        s.comps.len() == 0,
        s.found.len() == 0,
    ensures
        search_ok(g, s),
{
    assert(visited_set(s, g.len() as int) =~= Set::<int>::empty());
    reveal(arrays_ok);
    reveal(numbers_ok);
    reveal(onstack_ok);
    reveal(stack_ok);
    reveal(work_ok);
    reveal(low_le_ok);
    reveal(low_wit_ok);
    reveal(low_chain_ok);
    reveal(reach_down_ok);
    reveal(reach_up_ok);
    reveal(settled_edges_ok);
    reveal(gray_edges_ok);
    reveal(popped_edges_ok);
    reveal(comps_ok);
}

/// While an undiscovered vertex remains, fewer than all have numbers.
#[verifier::spinoff_prover]
#[verifier::rlimit(40)]
pub proof fn lemma_room(g: Seq<Seq<usize>>, s: Search, w: int)
    requires
        arrays_ok(g, s),
        0 <= w < g.len(),
        !visited(s, w),
    ensures
        s.next < g.len(),
{
    reveal(arrays_ok);
    let n = g.len() as int;
    let all = Set::new(|x: int| 0 <= x < n);
    assert(all =~= vstd::set_lib::set_int_range(0, n));
    vstd::set_lib::lemma_int_range(0, n);
    assert(visited_set(s, n).subset_of(all.remove(w)));
    vstd::set_lib::lemma_len_subset(visited_set(s, n), all.remove(w));
}

/// Giving the undiscovered vertex `w` the next number keeps the arrays and
/// numbers consistent.
#[verifier::spinoff_prover]
#[verifier::rlimit(40)]
proof fn lemma_number(g: Seq<Seq<usize>>, s0: Search, s1: Search, w: int)
    requires
        graph_ok(g),
        arrays_ok(g, s0),
        numbers_ok(g, s0),
        0 <= w < g.len(),
        !visited(s0, w),
        s1.idx == s0.idx.update(w, s0.next as usize),
        s1.low.len() == g.len(),
        s1.ons.len() == g.len(),
        s1.next == s0.next + 1,
    ensures
        arrays_ok(g, s1),
        numbers_ok(g, s1),
        s0.next < g.len(),
        forall|x: int| 0 <= x < g.len() ==> (visited(s1, x) <==> (visited(s0, x) || x == w)),
{
    let n = g.len() as int;
    lemma_room(g, s0, w);
    reveal(arrays_ok);
    reveal(numbers_ok);
    assert(visited_set(s1, n) =~= visited_set(s0, n).insert(w));
}

/// The next edge of the top frame `(v, pos)` leads to `w`.
pub open spec fn top_edge(g: Seq<Seq<usize>>, s0: Search, v: usize, pos: usize, w: usize) -> bool {
    &&& s0.wrk.len() > 0
    &&& s0.wrk.last() == (v, pos)
    &&& pos < g[v as int].len()
    &&& w == g[v as int][pos as int]
}

/// What the top frame `(v, pos)` of a sound search satisfies.
#[verifier::spinoff_prover]
#[verifier::rlimit(40)]
pub proof fn lemma_top(g: Seq<Seq<usize>>, s0: Search, v: usize, pos: usize)
    requires
        search_ok(g, s0),
        s0.wrk.len() > 0,
        s0.wrk.last() == (v, pos),
    ensures
        v < g.len(),
        pos <= g[v as int].len(),
        s0.ons[v as int],
        visited(s0, v as int),
        gray(s0, v as int),
        s0.wrk[s0.wrk.len() - 1].0 == v,
        s0.wrk[s0.wrk.len() - 1].1 == pos,
        forall|k: int| 0 <= k < s0.wrk.len() - 1 ==> s0.idx[#[trigger] s0.wrk[k].0 as int] < s0.idx[v as int],
{
    reveal(work_ok);
    reveal(onstack_ok);
    let t = s0.wrk.len() - 1;
    assert(s0.wrk[t].0 == v);
    assert(s0.wrk[t].0 < g.len());
    assert forall|k: int| 0 <= k < s0.wrk.len() - 1 implies s0.idx[#[trigger] s0.wrk[k].0 as int] < s0.idx[
        v as int] by {
        assert(s0.idx[s0.wrk[k].0 as int] < s0.idx[s0.wrk[t].0 as int]);
    }
}


// ---------------------------------------------------------------------
// Following an edge to an undiscovered vertex
// ---------------------------------------------------------------------

/// The search after following the next edge of the top frame `(v, pos)` to
/// the undiscovered vertex `w`: `w` is numbered, marked and pushed on both
/// stacks.
pub open spec fn tree_step(g: Seq<Seq<usize>>, s0: Search, s1: Search, v: usize, pos: usize, w: usize) -> bool {
    &&& top_edge(g, s0, v, pos, w)
    &&& !visited(s0, w as int)
    &&& s1 == (Search {
        idx: s0.idx.update(w as int, s0.next as usize),
        low: s0.low.update(w as int, s0.next as usize),
        ons: s0.ons.update(w as int, true),
        stk: s0.stk.push(w),
        wrk: s0.wrk.drop_last().push((v, (pos + 1) as usize)).push((w, 0usize)),
        next: s0.next + 1,
        ..s0
    })
}

/// What a tree step keeps and changes, vertex by vertex and frame by frame.
pub open spec fn tree_facts(g: Seq<Seq<usize>>, s0: Search, s1: Search, v: usize, pos: usize, w: usize) -> bool {
    let n = g.len() as int;
    let t = s0.wrk.len() - 1;
    &&& s0.wrk.len() > 0
    &&& s0.wrk[t].0 == v && s0.wrk[t].1 == pos
    &&& v < n && pos < g[v as int].len() && w == g[v as int][pos as int] && w < n
    &&& s0.ons[v as int] && visited(s0, v as int) && !visited(s0, w as int) && !s0.ons[w as int]
    &&& s0.next < n
    &&& (forall|k: int| 0 <= k < t ==> s0.idx[#[trigger] s0.wrk[k].0 as int] < s0.idx[v as int])
    &&& (forall|x: int| 0 <= x < n && visited(s0, x) ==> #[trigger] s0.idx[x] < s0.next)
    &&& (forall|k: int| 0 <= k < s0.wrk.len() ==> #[trigger] s0.wrk[k].0 < n && s0.ons[s0.wrk[k].0 as int])
    &&& (forall|x: int| 0 <= x < n && #[trigger] s0.ons[x] ==> visited(s0, x))
    &&& s1.next == s0.next + 1 && s1.comps == s0.comps && s1.found == s0.found
    &&& s1.stk == s0.stk.push(w)
    &&& s1.idx.len() == n && s1.low.len() == n && s1.ons.len() == n
    &&& s1.wrk.len() == t + 2
    &&& (forall|k: int| 0 <= k < t ==> #[trigger] s1.wrk[k] == s0.wrk[k])
    &&& s1.wrk[t].0 == v && s1.wrk[t].1 == pos + 1
    &&& s1.wrk[t + 1].0 == w && s1.wrk[t + 1].1 == 0
    &&& (forall|x: int| 0 <= x < n && x != w ==> #[trigger] s1.idx[x] == s0.idx[x])
    &&& (forall|x: int| 0 <= x < n && x != w ==> #[trigger] s1.low[x] == s0.low[x])
    &&& (forall|x: int| 0 <= x < n && x != w ==> #[trigger] s1.ons[x] == s0.ons[x])
    &&& s1.idx[w as int] == s0.next && s1.low[w as int] == s0.next && s1.ons[w as int]
    &&& (forall|x: int| 0 <= x < n ==> (#[trigger] gray(s1, x) <==> (gray(s0, x) || x == w)))
    &&& (forall|x: int| 0 <= x < n ==> (#[trigger] popped(s1, x) <==> popped(s0, x)))
    &&& (forall|x: int| 0 <= x < n ==> (#[trigger] settled(s1, x) <==> settled(s0, x)))
    &&& (forall|x: int| 0 <= x < n ==> (#[trigger] visited(s1, x) <==> (visited(s0, x) || x == w)))
}

#[verifier::spinoff_prover]
#[verifier::rlimit(40)]
proof fn lemma_tree_facts(g: Seq<Seq<usize>>, s0: Search, s1: Search, v: usize, pos: usize, w: usize)
    requires
        search_ok(g, s0),
        tree_step(g, s0, s1, v, pos, w),
    ensures
        tree_facts(g, s0, s1, v, pos, w),
        arrays_ok(g, s1),
        numbers_ok(g, s1),
{
    let n = g.len() as int;
    let t = s0.wrk.len() - 1;
    lemma_top(g, s0, v, pos);
    assert(w < n) by {
        assert(g[v as int][pos as int] < g.len());
    }
    reveal(arrays_ok);
    reveal(onstack_ok);
    reveal(numbers_ok);
    reveal(work_ok);
    assert(!s0.ons[w as int]);
    lemma_number(g, s0, s1, w as int);
    assert(s1.wrk.len() == t + 2);
    assert(forall|k: int| 0 <= k < t ==> #[trigger] s1.wrk[k] == s0.wrk[k]);
    assert(s1.wrk[t] == (v, (pos + 1) as usize));
    assert(s1.wrk[t + 1] == (w, 0usize));
    assert forall|x: int| 0 <= x < n implies (#[trigger] gray(s1, x) <==> (gray(s0, x) || x == w)) by {
        if gray(s0, x) {
            let k = choose|k: int| 0 <= k < s0.wrk.len() && #[trigger] s0.wrk[k].0 == x;
            if k < t {
                assert(s1.wrk[k].0 == x);
            } else {
                assert(s1.wrk[t].0 == x);
            }
        }
        if gray(s1, x) {
            let k = choose|k: int| 0 <= k < s1.wrk.len() && #[trigger] s1.wrk[k].0 == x;
            if k < t {
                assert(s0.wrk[k].0 == x);
            } else if k == t {
                assert(s0.wrk[t].0 == x);
            }
        }
        if x == w {
            assert(s1.wrk[t + 1].0 == x);
        }
    }
}

/// A tree step keeps the stacks well formed.
#[verifier::spinoff_prover]
#[verifier::rlimit(40)]
proof fn lemma_tree_stacks(g: Seq<Seq<usize>>, s0: Search, s1: Search, v: usize, pos: usize, w: usize)
    requires
        search_ok(g, s0),
        tree_facts(g, s0, s1, v, pos, w),
    ensures
        onstack_ok(g, s1),
        stack_ok(g, s1),
        work_ok(g, s1),
{
    let n = g.len() as int;
    let t = s0.wrk.len() - 1;
    reveal(onstack_ok);
    reveal(stack_ok);
    reveal(work_ok);
    assert forall|x: int| 0 <= x < n && #[trigger] s1.ons[x] implies visited(s1, x) && stacked(s1.stk, x) by {
        reveal(stacked);
        if x == w {
            assert(s1.stk[s1.stk.len() - 1] == w);
        } else {
            assert(s0.ons[x]);
            assert(stacked(s0.stk, x));
            let i = choose|i: int| 0 <= i < s0.stk.len() && s0.stk[i] == x as usize;
            assert(s1.stk[i] == x as usize);
        }
    }
    assert forall|i: int| 0 <= i < s1.stk.len() implies #[trigger] s1.stk[i] < n && s1.ons[s1.stk[i] as int] by {
        if i < s0.stk.len() {
            assert(s0.stk[i] < n && s0.ons[s0.stk[i] as int]);
        }
    }
    assert forall|i: int, j: int| 0 <= i < j < s1.stk.len() implies s1.idx[#[trigger] s1.stk[i] as int]
        < s1.idx[#[trigger] s1.stk[j] as int] by {
        assert(s0.stk[i] < n && s0.ons[s0.stk[i] as int]);
        assert(s1.idx[s0.stk[i] as int] == s0.idx[s0.stk[i] as int]);
        if j < s0.stk.len() {
            assert(s0.stk[j] < n && s0.ons[s0.stk[j] as int]);
            assert(s1.idx[s0.stk[j] as int] == s0.idx[s0.stk[j] as int]);
            assert(s0.idx[s0.stk[i] as int] < s0.idx[s0.stk[j] as int]);
        } else {
            assert(s0.idx[s0.stk[i] as int] < s0.next);
        }
    }
    assert forall|k: int| 0 <= k < s1.wrk.len() implies #[trigger] s1.wrk[k].0 < n && s1.wrk[k].1 <= g[
        s1.wrk[k].0 as int].len() && s1.ons[s1.wrk[k].0 as int] by {
        if k < t {
            assert(s1.wrk[k] == s0.wrk[k]);
            assert(s0.wrk[k].0 < n && s0.wrk[k].1 <= g[s0.wrk[k].0 as int].len() && s0.ons[s0.wrk[k].0 as int]);
            assert(s1.ons[s0.wrk[k].0 as int]);
        }
    }
    assert forall|k1: int, k2: int| 0 <= k1 < k2 < s1.wrk.len() implies s1.idx[
        #[trigger] s1.wrk[k1].0 as int] < s1.idx[#[trigger] s1.wrk[k2].0 as int] by {
        let a = s1.wrk[k1].0 as int;
        let b = s1.wrk[k2].0 as int;
        if k1 < t {
            assert(s1.wrk[k1] == s0.wrk[k1]);
            assert(s0.wrk[k1].0 < n && s0.ons[a]);
            assert(s0.idx[a] < s0.idx[v as int]);
        } else {
            assert(a == v);
        }
        assert(s1.idx[a] == s0.idx[a]);
        assert(s0.idx[a] < s0.next);
        if k2 < t {
            assert(s1.wrk[k2] == s0.wrk[k2]);
            assert(s0.wrk[k2].0 < n && s0.ons[b]);
            assert(s1.idx[b] == s0.idx[b]);
            assert(s0.idx[a] < s0.idx[b]);
        } else if k2 == t {
            assert(b == v);
        }
    }
    assert forall|k: int| 0 <= k < s1.wrk.len() - 1 implies #[trigger] s1.wrk[k].1 >= 1 && g[
        s1.wrk[k].0 as int][s1.wrk[k].1 - 1] == s1.wrk[k + 1].0 by {
        if k < t - 1 {
            assert(s1.wrk[k] == s0.wrk[k]);
            assert(s1.wrk[k + 1] == s0.wrk[k + 1]);
            assert(s0.wrk[k].1 >= 1 && g[s0.wrk[k].0 as int][s0.wrk[k].1 - 1] == s0.wrk[k + 1].0);
        } else if k == t - 1 {
            assert(s1.wrk[k] == s0.wrk[k]);
            assert(s0.wrk[k].1 >= 1 && g[s0.wrk[k].0 as int][s0.wrk[k].1 - 1] == s0.wrk[k + 1].0);
        }
    }
    assert(s1.stk[0] == s1.wrk[0].0) by {
        assert(s0.stk[0] == s0.wrk[0].0);
        if t > 0 {
            assert(s1.wrk[0] == s0.wrk[0]);
        }
    }
}

/// A tree step keeps low links at most the numbers.
#[verifier::spinoff_prover]
#[verifier::rlimit(40)]
proof fn lemma_tree_low_le(g: Seq<Seq<usize>>, s0: Search, s1: Search, v: usize, pos: usize, w: usize)
    requires
        search_ok(g, s0),
        tree_facts(g, s0, s1, v, pos, w),
    ensures
        low_le_ok(g, s1),
{
    let n = g.len() as int;
    reveal(low_le_ok);
    assert forall|x: int| 0 <= x < n && #[trigger] s1.ons[x] implies s1.low[x] <= s1.idx[x] by {
        if x != w {
            assert(s0.ons[x]);
            assert(s1.low[x] == s0.low[x]);
            assert(s1.idx[x] == s0.idx[x]);
        }
    }
}

/// A tree step keeps the low links' witnesses.
#[verifier::spinoff_prover]
#[verifier::rlimit(40)]
proof fn lemma_tree_low_wit(g: Seq<Seq<usize>>, s0: Search, s1: Search, v: usize, pos: usize, w: usize)
    requires
        search_ok(g, s0),
        tree_facts(g, s0, s1, v, pos, w),
    ensures
        low_wit_ok(g, s1),
{
    let n = g.len() as int;
    reveal(low_wit_ok);
    lemma_reach_refl(g, w as int);
    assert forall|x: int| 0 <= x < n && #[trigger] s1.ons[x] implies exists|y: int|
        0 <= y < n && s1.ons[y] && #[trigger] s1.idx[y] == s1.low[x] && reach(g, x, y) by {
        if x == w {
            assert(s1.idx[w as int] == s1.low[w as int]);
        } else {
            assert(s0.ons[x]);
            assert(s1.low[x] == s0.low[x]);
            let y = choose|y: int| 0 <= y < n && s0.ons[y] && #[trigger] s0.idx[y] == s0.low[x] && reach(g, x, y);
            assert(y != w);
            assert(s1.idx[y] == s0.idx[y]);
            assert(s1.ons[y] == s0.ons[y]);
        }
    }
}

/// A tree step keeps the low links ordered along the stacks.
#[verifier::spinoff_prover]
#[verifier::rlimit(40)]
proof fn lemma_tree_low_chain(g: Seq<Seq<usize>>, s0: Search, s1: Search, v: usize, pos: usize, w: usize)
    requires
        search_ok(g, s0),
        tree_facts(g, s0, s1, v, pos, w),
    ensures
        low_chain_ok(g, s1),
{
    let n = g.len() as int;
    let t = s0.wrk.len() - 1;
    reveal(low_chain_ok);
    assert forall|x: int, k: int|
        0 <= x < n && settled(s1, x) && 0 <= k < s1.wrk.len() && s1.idx[#[trigger] s1.wrk[k].0 as int]
            < s1.idx[x] && (k + 1 == s1.wrk.len() || s1.idx[x] < s1.idx[s1.wrk[k + 1].0 as int])
            implies s1.low[s1.wrk[k].0 as int] <= #[trigger] s1.low[x] by {
        assert(settled(s0, x));
        assert(s0.ons[x]);
        assert(x != w);
        assert(visited(s0, x));
        assert(s1.idx[x] == s0.idx[x]);
        assert(s1.low[x] == s0.low[x]);
        assert(s0.idx[x] < s0.next);
        if k < t {
            let a = s0.wrk[k].0 as int;
            assert(s1.wrk[k] == s0.wrk[k]);
            assert(s0.wrk[k].0 < n);
            assert(s0.idx[a] < s0.idx[v as int]);
            assert(a != w);
            assert(s1.idx[a] == s0.idx[a]);
            assert(s1.low[a] == s0.low[a]);
            if k + 1 < t {
                assert(s1.wrk[k + 1] == s0.wrk[k + 1]);
                let b = s0.wrk[k + 1].0 as int;
                assert(s0.wrk[k + 1].0 < n);
                assert(s0.idx[b] < s0.idx[v as int]);
                assert(b != w);
                assert(s1.idx[b] == s0.idx[b]);
            } else {
                assert(s1.wrk[k + 1].0 == s0.wrk[k + 1].0);
                assert(s1.idx[v as int] == s0.idx[v as int]);
            }
            assert(s0.low[s0.wrk[k].0 as int] <= s0.low[x]);
        } else if k == t {
            assert(s1.idx[v as int] == s0.idx[v as int]);
            assert(s1.low[v as int] == s0.low[v as int]);
            assert(s0.low[s0.wrk[t].0 as int] <= s0.low[x]);
        }
    }
}

/// A tree step keeps the stacks' reachability.
#[verifier::spinoff_prover]
#[verifier::rlimit(40)]
proof fn lemma_tree_reach_down(g: Seq<Seq<usize>>, s0: Search, s1: Search, v: usize, pos: usize, w: usize)
    requires
        search_ok(g, s0),
        tree_facts(g, s0, s1, v, pos, w),
    ensures
        reach_down_ok(g, s1),
{
    let n = g.len() as int;
    let t = s0.wrk.len() - 1;
    reveal(reach_down_ok);
    lemma_reach_refl(g, w as int);
    assert(edge(g, v as int, w as int)) by {
        assert(g[v as int][pos as int] == w);
    }
    assert forall|k: int, x: int|
        0 <= k < s1.wrk.len() && 0 <= x < n && #[trigger] s1.ons[x] && s1.idx[#[trigger] s1.wrk[k].0 as int]
            <= s1.idx[x] implies reach(g, s1.wrk[k].0 as int, x) by {
        if k <= t {
            let a = s0.wrk[k].0 as int;
            assert(s1.wrk[k].0 == s0.wrk[k].0);
            assert(s0.wrk[k].0 < n);
            if k < t {
                assert(s0.idx[a] < s0.idx[v as int]);
            }
            assert(a != w);
            assert(s1.idx[a] == s0.idx[a]);
            assert(s0.ons[v as int] && s0.idx[a] <= s0.idx[v as int]);
            assert(reach(g, a, v as int));
            if x == w {
                lemma_reach_step(g, a, v as int, w as int);
            } else {
                assert(s0.ons[x] && s1.idx[x] == s0.idx[x]);
            }
        } else if x != w {
            assert(s1.ons[x] == s0.ons[x]);
            assert(s0.ons[x] && s1.idx[x] == s0.idx[x]);
            assert(visited(s0, x));
            assert(s0.idx[x] < s0.next);
        }
    }
}

/// A tree step keeps every marked vertex reaching an unfinished one.
#[verifier::spinoff_prover]
#[verifier::rlimit(40)]
proof fn lemma_tree_reach_up(g: Seq<Seq<usize>>, s0: Search, s1: Search, v: usize, pos: usize, w: usize)
    requires
        search_ok(g, s0),
        tree_facts(g, s0, s1, v, pos, w),
    ensures
        reach_up_ok(g, s1),
{
    let n = g.len() as int;
    let t = s0.wrk.len() - 1;
    reveal(reach_up_ok);
    lemma_reach_refl(g, w as int);
    assert forall|x: int| 0 <= x < n && #[trigger] s1.ons[x] implies exists|k: int|
        0 <= k < s1.wrk.len() && s1.idx[#[trigger] s1.wrk[k].0 as int] <= s1.idx[x] && reach(
            g,
            x,
            s1.wrk[k].0 as int,
        ) by {
        if x == w {
            assert(s1.wrk[t + 1].0 == w);
        } else {
            assert(s0.ons[x] && s1.idx[x] == s0.idx[x]);
            let k = choose|k: int|
                0 <= k < s0.wrk.len() && s0.idx[#[trigger] s0.wrk[k].0 as int] <= s0.idx[x] && reach(
                    g,
                    x,
                    s0.wrk[k].0 as int,
                );
            let a = s0.wrk[k].0 as int;
            if k < t {
                assert(s1.wrk[k] == s0.wrk[k]);
                assert(s0.idx[a] < s0.idx[v as int]);
            } else {
                assert(s1.wrk[t].0 == s0.wrk[t].0);
            }
            assert(a != w);
            assert(s1.idx[a] == s0.idx[a]);
            assert(s1.wrk[k].0 as int == a);
        }
    }
}

/// A tree step keeps the followed edges sound.
#[verifier::spinoff_prover]
#[verifier::rlimit(40)]
proof fn lemma_tree_edges(g: Seq<Seq<usize>>, s0: Search, s1: Search, v: usize, pos: usize, w: usize)
    requires
        search_ok(g, s0),
        tree_facts(g, s0, s1, v, pos, w),
    ensures
        settled_edges_ok(g, s1),
        gray_edges_ok(g, s1),
        popped_edges_ok(g, s1),
{
    let n = g.len() as int;
    let t = s0.wrk.len() - 1;
    reveal(settled_edges_ok);
    reveal(gray_edges_ok);
    reveal(popped_edges_ok);
    assert forall|x: int, e: int|
        0 <= x < n && settled(s1, x) && 0 <= e < g[x].len() implies visited(s1, #[trigger] g[x][e] as int)
            && (s1.ons[g[x][e] as int] ==> s1.low[x] <= s1.idx[g[x][e] as int]) by {
        let d = g[x][e] as int;
        assert(settled(s0, x));
        assert(s0.ons[x]);
        assert(x != w);
        assert(d < n);
        assert(visited(s0, d));
        assert(d != w);
        assert(s1.low[x] == s0.low[x] && s1.idx[d] == s0.idx[d] && s1.ons[d] == s0.ons[d]);
    }
    assert forall|k: int, e: int| 0 <= k < s1.wrk.len() && 0 <= e < s1.wrk[k].1 implies visited(
        s1,
        #[trigger] g[s1.wrk[k].0 as int][e] as int,
    ) && (s1.ons[g[s1.wrk[k].0 as int][e] as int] ==> s1.low[s1.wrk[k].0 as int] <= s1.idx[g[
        s1.wrk[k].0 as int][e] as int]) by {
        if k < t || (k == t && e < pos) {
            let a = s0.wrk[k].0 as int;
            assert(s1.wrk[k].0 == s0.wrk[k].0);
            assert(s0.wrk[k].0 < n);
            if k < t {
                assert(s1.wrk[k] == s0.wrk[k]);
                assert(s0.idx[a] < s0.idx[v as int]);
            }
            assert(a != w);
            let d = g[a][e] as int;
            assert(visited(s0, d));
            assert(d < n) by {
                reveal(work_ok);
                assert(s0.wrk[k].0 < n);
            }
            assert(d != w);
            assert(s1.low[a] == s0.low[a] && s1.idx[d] == s0.idx[d] && s1.ons[d] == s0.ons[d]);
        } else if k == t {
            assert(e == pos);
            assert(s1.wrk[t].0 == v);
            assert(g[v as int][e] == w);
            assert(s1.low[v as int] == s0.low[v as int] && s1.idx[v as int] == s0.idx[v as int]);
            assert(s0.low[v as int] <= s0.idx[v as int]) by {
                reveal(low_le_ok);
            }
            assert(s0.idx[v as int] < s0.next);
        }
    }
    assert forall|x: int, e: int| 0 <= x < n && popped(s1, x) && 0 <= e < g[x].len() implies popped(
        s1,
        #[trigger] g[x][e] as int,
    ) by {
        assert(popped(s0, x));
        assert(popped(s0, g[x][e] as int));
        assert(g[x][e] < n);
    }
}

/// A tree step leaves the completed components as they are.
#[verifier::spinoff_prover]
#[verifier::rlimit(40)]
proof fn lemma_tree_comps(g: Seq<Seq<usize>>, s0: Search, s1: Search, v: usize, pos: usize, w: usize)
    requires
        search_ok(g, s0),
        tree_facts(g, s0, s1, v, pos, w),
    ensures
        comps_ok(g, s1),
{
    let n = g.len() as int;
    reveal(comps_ok);
    assert forall|j: int, i: int|
        0 <= j < s1.comps.len() && 0 <= i < s1.comps[j].len() implies popped(s1, #[trigger] s1.comps[j][i] as int) by {
        assert(is_component(g, s0.comps[j]));
        assert(popped(s0, s0.comps[j][i] as int));
    }
    assert forall|x: int| 0 <= x < n && #[trigger] popped(s1, x) implies exists|j: int, i: int|
        0 <= j < s1.comps.len() && 0 <= i < s1.comps[j].len() && #[trigger] s1.comps[j][i] == x by {
        assert(popped(s0, x));
    }
}

/// Following an edge to an undiscovered vertex keeps the invariant.
#[verifier::spinoff_prover]
#[verifier::rlimit(40)]
pub proof fn lemma_tree(g: Seq<Seq<usize>>, s0: Search, s1: Search, v: usize, pos: usize, w: usize)
    requires
        search_ok(g, s0),
        tree_step(g, s0, s1, v, pos, w),
    ensures
        search_ok(g, s1),
{
    lemma_tree_facts(g, s0, s1, v, pos, w);
    lemma_tree_stacks(g, s0, s1, v, pos, w);
    lemma_tree_low_le(g, s0, s1, v, pos, w);
    lemma_tree_low_wit(g, s0, s1, v, pos, w);
    lemma_tree_low_chain(g, s0, s1, v, pos, w);
    lemma_tree_reach_down(g, s0, s1, v, pos, w);
    lemma_tree_reach_up(g, s0, s1, v, pos, w);
    lemma_tree_edges(g, s0, s1, v, pos, w);
    lemma_tree_comps(g, s0, s1, v, pos, w);
}


// ---------------------------------------------------------------------
// Following an edge to a discovered vertex
// ---------------------------------------------------------------------

/// The search after following the next edge of the top frame `(v, pos)` to
/// the discovered vertex `w`: `v`'s low link drops to `w`'s number when `w`
/// is marked and numbered lower.
pub open spec fn advance_step(g: Seq<Seq<usize>>, s0: Search, s1: Search, v: usize, pos: usize, w: usize) -> bool {
    &&& top_edge(g, s0, v, pos, w)
    &&& visited(s0, w as int)
    &&& s1 == (Search {
        low: if s0.ons[w as int] && s0.idx[w as int] < s0.low[v as int] {
            s0.low.update(v as int, s0.idx[w as int])
        } else {
            s0.low
        },
        wrk: s0.wrk.drop_last().push((v, (pos + 1) as usize)),
        ..s0
    })
}

/// What an advance step keeps and changes.
pub open spec fn advance_facts(g: Seq<Seq<usize>>, s0: Search, s1: Search, v: usize, pos: usize, w: usize) -> bool {
    let n = g.len() as int;
    let t = s0.wrk.len() - 1;
    &&& s0.wrk.len() > 0
    &&& s0.wrk[t].0 == v && s0.wrk[t].1 == pos
    &&& v < n && pos < g[v as int].len() && w == g[v as int][pos as int] && w < n
    &&& s0.ons[v as int] && visited(s0, w as int)
    &&& (forall|k: int| 0 <= k < s0.wrk.len() ==> #[trigger] s0.wrk[k].0 < n && s0.ons[s0.wrk[k].0 as int])
    &&& s1.idx == s0.idx && s1.ons == s0.ons && s1.stk == s0.stk && s1.next == s0.next
    &&& s1.comps == s0.comps && s1.found == s0.found
    &&& s1.low.len() == n
    &&& s1.wrk.len() == t + 1
    &&& (forall|k: int| 0 <= k < t ==> #[trigger] s1.wrk[k] == s0.wrk[k])
    &&& s1.wrk[t].0 == v && s1.wrk[t].1 == pos + 1
    &&& (forall|x: int| 0 <= x < n && x != v ==> #[trigger] s1.low[x] == s0.low[x])
    &&& s1.low[v as int] <= s0.low[v as int]
    &&& (s1.low[v as int] == s0.low[v as int] || (s0.ons[w as int] && s1.low[v as int] == s0.idx[w as int]))
    &&& (s0.ons[w as int] ==> s1.low[v as int] <= s0.idx[w as int])
    &&& (forall|x: int| 0 <= x < n ==> (#[trigger] gray(s1, x) <==> gray(s0, x)))
}

#[verifier::spinoff_prover]
#[verifier::rlimit(40)]
proof fn lemma_advance_facts(g: Seq<Seq<usize>>, s0: Search, s1: Search, v: usize, pos: usize, w: usize)
    requires
        search_ok(g, s0),
        advance_step(g, s0, s1, v, pos, w),
    ensures
        advance_facts(g, s0, s1, v, pos, w),
{
    let n = g.len() as int;
    let t = s0.wrk.len() - 1;
    lemma_top(g, s0, v, pos);
    assert(w < n) by {
        assert(g[v as int][pos as int] < g.len());
    }
    reveal(arrays_ok);
    reveal(work_ok);
    assert(forall|k: int| 0 <= k < t ==> #[trigger] s1.wrk[k] == s0.wrk[k]);
    assert(s1.wrk[t] == (v, (pos + 1) as usize));
    assert forall|x: int| 0 <= x < n implies (#[trigger] gray(s1, x) <==> gray(s0, x)) by {
        if gray(s0, x) {
            let k = choose|k: int| 0 <= k < s0.wrk.len() && #[trigger] s0.wrk[k].0 == x;
            if k < t {
                assert(s1.wrk[k].0 == x);
            } else {
                assert(s1.wrk[t].0 == x);
            }
        }
        if gray(s1, x) {
            let k = choose|k: int| 0 <= k < s1.wrk.len() && #[trigger] s1.wrk[k].0 == x;
            if k < t {
                assert(s0.wrk[k].0 == x);
            } else {
                assert(s0.wrk[t].0 == x);
            }
        }
    }
}

/// An advance step keeps the shape of the search.
#[verifier::spinoff_prover]
#[verifier::rlimit(40)]
proof fn lemma_advance_shape(g: Seq<Seq<usize>>, s0: Search, s1: Search, v: usize, pos: usize, w: usize)
    requires
        search_ok(g, s0),
        advance_facts(g, s0, s1, v, pos, w),
    ensures
        arrays_ok(g, s1),
        numbers_ok(g, s1),
        onstack_ok(g, s1),
        stack_ok(g, s1),
        work_ok(g, s1),
{
    let n = g.len() as int;
    let t = s0.wrk.len() - 1;
    reveal(arrays_ok);
    reveal(numbers_ok);
    reveal(onstack_ok);
    reveal(stack_ok);
    reveal(work_ok);
    assert(visited_set(s1, n) =~= visited_set(s0, n));
    assert forall|k: int| 0 <= k < s1.wrk.len() implies #[trigger] s1.wrk[k].0 < n && s1.wrk[k].1 <= g[
        s1.wrk[k].0 as int].len() && s1.ons[s1.wrk[k].0 as int] by {
        if k < t {
            assert(s1.wrk[k] == s0.wrk[k]);
            assert(s0.wrk[k].1 <= g[s0.wrk[k].0 as int].len());
        }
    }
    assert forall|k1: int, k2: int| 0 <= k1 < k2 < s1.wrk.len() implies s1.idx[
        #[trigger] s1.wrk[k1].0 as int] < s1.idx[#[trigger] s1.wrk[k2].0 as int] by {
        assert(s1.wrk[k1].0 == s0.wrk[k1].0);
        if k2 < t {
            assert(s1.wrk[k2] == s0.wrk[k2]);
        }
        assert(s1.wrk[k2].0 == s0.wrk[k2].0);
        assert(s0.idx[s0.wrk[k1].0 as int] < s0.idx[s0.wrk[k2].0 as int]);
    }
    assert forall|k: int| 0 <= k < s1.wrk.len() - 1 implies #[trigger] s1.wrk[k].1 >= 1 && g[
        s1.wrk[k].0 as int][s1.wrk[k].1 - 1] == s1.wrk[k + 1].0 by {
        assert(s1.wrk[k] == s0.wrk[k]);
        assert(s1.wrk[k + 1].0 == s0.wrk[k + 1].0);
        assert(s0.wrk[k].1 >= 1 && g[s0.wrk[k].0 as int][s0.wrk[k].1 - 1] == s0.wrk[k + 1].0);
    }
    assert(s1.stk[0] == s1.wrk[0].0) by {
        assert(s0.stk[0] == s0.wrk[0].0);
        if t > 0 {
            assert(s1.wrk[0] == s0.wrk[0]);
        }
    }
}

#[verifier::spinoff_prover]
#[verifier::rlimit(40)]
proof fn lemma_advance_low_le(g: Seq<Seq<usize>>, s0: Search, s1: Search, v: usize, pos: usize, w: usize)
    requires
        search_ok(g, s0),
        advance_facts(g, s0, s1, v, pos, w),
    ensures
        low_le_ok(g, s1),
{
    let n = g.len() as int;
    let t = s0.wrk.len() - 1;
    reveal(low_le_ok);
    assert forall|x: int| 0 <= x < n && #[trigger] s1.ons[x] implies s1.low[x] <= s1.idx[x] by {
        if x != v {
            assert(s1.low[x] == s0.low[x]);
        }
    }
}

#[verifier::spinoff_prover]
#[verifier::rlimit(40)]
proof fn lemma_advance_low_wit(g: Seq<Seq<usize>>, s0: Search, s1: Search, v: usize, pos: usize, w: usize)
    requires
        search_ok(g, s0),
        advance_facts(g, s0, s1, v, pos, w),
    ensures
        low_wit_ok(g, s1),
{
    let n = g.len() as int;
    let t = s0.wrk.len() - 1;
    reveal(low_wit_ok);
    assert forall|x: int| 0 <= x < n && #[trigger] s1.ons[x] implies exists|y: int|
        0 <= y < n && s1.ons[y] && #[trigger] s1.idx[y] == s1.low[x] && reach(g, x, y) by {
        if x == v && s1.low[v as int] != s0.low[v as int] {
            assert(edge(g, v as int, w as int)) by {
                assert(g[v as int][pos as int] == w);
            }
            lemma_reach_edge(g, v as int, w as int);
            assert(s1.idx[w as int] == s1.low[x]);
        } else {
            assert(s1.low[x] == s0.low[x]);
            let y = choose|y: int| 0 <= y < n && s0.ons[y] && #[trigger] s0.idx[y] == s0.low[x] && reach(g, x, y);
            assert(s1.idx[y] == s1.low[x]);
        }
    }
}

#[verifier::spinoff_prover]
#[verifier::rlimit(40)]
proof fn lemma_advance_low_chain(g: Seq<Seq<usize>>, s0: Search, s1: Search, v: usize, pos: usize, w: usize)
    requires
        search_ok(g, s0),
        advance_facts(g, s0, s1, v, pos, w),
    ensures
        low_chain_ok(g, s1),
{
    let n = g.len() as int;
    let t = s0.wrk.len() - 1;
    reveal(low_chain_ok);
    assert forall|x: int, k: int|
        0 <= x < n && settled(s1, x) && 0 <= k < s1.wrk.len() && s1.idx[#[trigger] s1.wrk[k].0 as int]
            < s1.idx[x] && (k + 1 == s1.wrk.len() || s1.idx[x] < s1.idx[s1.wrk[k + 1].0 as int])
            implies s1.low[s1.wrk[k].0 as int] <= #[trigger] s1.low[x] by {
        assert(gray(s1, x) == gray(s0, x));
        assert(settled(s0, x));
        assert(x != v) by {
            assert(s0.wrk[t].0 == v);
        }
        assert(s1.low[x] == s0.low[x]);
        assert(s1.wrk[k].0 == s0.wrk[k].0) by {
            if k < t {
                assert(s1.wrk[k] == s0.wrk[k]);
            }
        }
        if k + 1 < s1.wrk.len() {
            assert(s1.wrk[k + 1].0 == s0.wrk[k + 1].0) by {
                if k + 1 < t {
                    assert(s1.wrk[k + 1] == s0.wrk[k + 1]);
                }
            }
        }
        assert(s0.low[s0.wrk[k].0 as int] <= s0.low[x]);
        let a = s0.wrk[k].0 as int;
        if a != v {
            assert(s1.low[a] == s0.low[a]);
        }
    }
}


#[verifier::spinoff_prover]
#[verifier::rlimit(40)]
proof fn lemma_advance_reach_down(g: Seq<Seq<usize>>, s0: Search, s1: Search, v: usize, pos: usize, w: usize)
    requires
        search_ok(g, s0),
        advance_facts(g, s0, s1, v, pos, w),
    ensures
        reach_down_ok(g, s1),
{
    let n = g.len() as int;
    let t = s0.wrk.len() - 1;
    reveal(reach_down_ok);
    assert forall|k: int, x: int|
        0 <= k < s1.wrk.len() && 0 <= x < n && #[trigger] s1.ons[x] && s1.idx[#[trigger] s1.wrk[k].0 as int]
            <= s1.idx[x] implies reach(g, s1.wrk[k].0 as int, x) by {
        assert(s1.wrk[k].0 == s0.wrk[k].0) by {
            if k < t {
                assert(s1.wrk[k] == s0.wrk[k]);
            }
        }
    }
}

#[verifier::spinoff_prover]
#[verifier::rlimit(40)]
proof fn lemma_advance_reach_up(g: Seq<Seq<usize>>, s0: Search, s1: Search, v: usize, pos: usize, w: usize)
    requires
        search_ok(g, s0),
        advance_facts(g, s0, s1, v, pos, w),
    ensures
        reach_up_ok(g, s1),
{
    let n = g.len() as int;
    let t = s0.wrk.len() - 1;
    reveal(reach_up_ok);
    assert forall|x: int| 0 <= x < n && #[trigger] s1.ons[x] implies exists|k: int|
        0 <= k < s1.wrk.len() && s1.idx[#[trigger] s1.wrk[k].0 as int] <= s1.idx[x] && reach(
            g,
            x,
            s1.wrk[k].0 as int,
        ) by {
        let k = choose|k: int|
            0 <= k < s0.wrk.len() && s0.idx[#[trigger] s0.wrk[k].0 as int] <= s0.idx[x] && reach(
                g,
                x,
                s0.wrk[k].0 as int,
            );
        assert(s1.wrk[k].0 == s0.wrk[k].0) by {
            if k < t {
                assert(s1.wrk[k] == s0.wrk[k]);
            }
        }
    }
}

#[verifier::spinoff_prover]
#[verifier::rlimit(40)]
proof fn lemma_advance_settled(g: Seq<Seq<usize>>, s0: Search, s1: Search, v: usize, pos: usize, w: usize)
    requires
        search_ok(g, s0),
        advance_facts(g, s0, s1, v, pos, w),
    ensures
        settled_edges_ok(g, s1),
{
    let n = g.len() as int;
    let t = s0.wrk.len() - 1;
    reveal(settled_edges_ok);
    assert forall|x: int, e: int|
        0 <= x < n && settled(s1, x) && 0 <= e < g[x].len() implies visited(s1, #[trigger] g[x][e] as int)
            && (s1.ons[g[x][e] as int] ==> s1.low[x] <= s1.idx[g[x][e] as int]) by {
        assert(gray(s1, x) == gray(s0, x));
        assert(x != v) by {
            assert(s0.wrk[t].0 == v);
        }
        assert(s1.low[x] == s0.low[x]);
    }
}

#[verifier::spinoff_prover]
#[verifier::rlimit(40)]
proof fn lemma_advance_gray(g: Seq<Seq<usize>>, s0: Search, s1: Search, v: usize, pos: usize, w: usize)
    requires
        search_ok(g, s0),
        advance_facts(g, s0, s1, v, pos, w),
    ensures
        gray_edges_ok(g, s1),
{
    let n = g.len() as int;
    let t = s0.wrk.len() - 1;
    reveal(gray_edges_ok);
    assert forall|k: int, e: int| 0 <= k < s1.wrk.len() && 0 <= e < s1.wrk[k].1 implies visited(
        s1,
        #[trigger] g[s1.wrk[k].0 as int][e] as int,
    ) && (s1.ons[g[s1.wrk[k].0 as int][e] as int] ==> s1.low[s1.wrk[k].0 as int] <= s1.idx[g[
        s1.wrk[k].0 as int][e] as int]) by {
        if k < t {
            assert(s1.wrk[k] == s0.wrk[k]);
            let a = s0.wrk[k].0 as int;
            assert(s0.idx[a] < s0.idx[v as int]) by {
                reveal(work_ok);
            }
            assert(a != v);
            assert(s1.low[a] == s0.low[a]);
        } else if e < pos {
            assert(s0.wrk[t].1 == pos);
        } else {
            assert(g[v as int][e] == w);
        }
    }
}

/// The completed components depend only on the numbers, the marks and the
/// lists themselves.
#[verifier::spinoff_prover]
#[verifier::rlimit(40)]
proof fn lemma_comps_frame(g: Seq<Seq<usize>>, s0: Search, s1: Search)
    requires
        comps_ok(g, s0),
        popped_edges_ok(g, s0),
        s1.idx == s0.idx,
        s1.ons == s0.ons,
        s1.comps == s0.comps,
        s1.found == s0.found,
    ensures
        comps_ok(g, s1),
        popped_edges_ok(g, s1),
{
    reveal(comps_ok);
    reveal(popped_edges_ok);
    assert forall|x: int| 0 <= x < g.len() && #[trigger] popped(s1, x) implies exists|j: int, i: int|
        0 <= j < s1.comps.len() && 0 <= i < s1.comps[j].len() && #[trigger] s1.comps[j][i] == x by {
        assert(popped(s0, x));
    }
}

#[verifier::spinoff_prover]
#[verifier::rlimit(40)]
proof fn lemma_advance_popped(g: Seq<Seq<usize>>, s0: Search, s1: Search, v: usize, pos: usize, w: usize)
    requires
        search_ok(g, s0),
        advance_facts(g, s0, s1, v, pos, w),
    ensures
        popped_edges_ok(g, s1),
        comps_ok(g, s1),
{
    lemma_comps_frame(g, s0, s1);
}


/// Following an edge to a discovered vertex keeps the invariant.
#[verifier::spinoff_prover]
#[verifier::rlimit(40)]
pub proof fn lemma_advance(g: Seq<Seq<usize>>, s0: Search, s1: Search, v: usize, pos: usize, w: usize)
    requires
        search_ok(g, s0),
        advance_step(g, s0, s1, v, pos, w),
    ensures
        search_ok(g, s1),
{
    lemma_advance_facts(g, s0, s1, v, pos, w);
    lemma_advance_shape(g, s0, s1, v, pos, w);
    lemma_advance_low_le(g, s0, s1, v, pos, w);
    lemma_advance_low_wit(g, s0, s1, v, pos, w);
    lemma_advance_low_chain(g, s0, s1, v, pos, w);
    lemma_advance_reach_down(g, s0, s1, v, pos, w);
    lemma_advance_reach_up(g, s0, s1, v, pos, w);
    lemma_advance_settled(g, s0, s1, v, pos, w);
    lemma_advance_gray(g, s0, s1, v, pos, w);
    lemma_advance_popped(g, s0, s1, v, pos, w);
}


// ---------------------------------------------------------------------
// Finishing a vertex
// ---------------------------------------------------------------------

/// The low links after the exhausted top frame `v` hands its low link to
/// the frame below it.
pub open spec fn handed_low(s0: Search, v: usize) -> Seq<usize> {
    if s0.wrk.len() > 1 && s0.low[v as int] < s0.low[s0.wrk[s0.wrk.len() - 2].0 as int] {
        s0.low.update(s0.wrk[s0.wrk.len() - 2].0 as int, s0.low[v as int])
    } else {
        s0.low
    }
}

/// The search after the exhausted top frame `v`, whose low link is below
/// its number, is popped: its component is not complete yet.
pub open spec fn keep_step(g: Seq<Seq<usize>>, s0: Search, s1: Search, v: usize) -> bool {
    &&& s0.wrk.len() > 0
    &&& s0.wrk.last() == (v, g[v as int].len() as usize)
    &&& s0.low[v as int] != s0.idx[v as int]
    &&& s1 == (Search { low: handed_low(s0, v), wrk: s0.wrk.drop_last(), ..s0 })
}

/// What a keep step keeps and changes; `p` is the new top frame's vertex.
pub open spec fn keep_facts(g: Seq<Seq<usize>>, s0: Search, s1: Search, v: usize, p: usize) -> bool {
    let n = g.len() as int;
    let t = s0.wrk.len() - 1;
    &&& t >= 1
    &&& s0.wrk[t].0 == v && s0.wrk[t].1 == g[v as int].len()
    &&& s0.wrk[t - 1].0 == p
    &&& v < n && p < n && s0.ons[v as int] && s0.ons[p as int] && v != p
    &&& s0.low[v as int] < s0.idx[v as int]
    &&& s0.idx[p as int] < s0.idx[v as int]
    &&& edge(g, p as int, v as int)
    &&& (forall|k: int| 0 <= k < s0.wrk.len() ==> #[trigger] s0.wrk[k].0 < n && s0.ons[s0.wrk[k].0 as int])
    &&& (forall|k: int| 0 <= k < t ==> s0.idx[#[trigger] s0.wrk[k].0 as int] < s0.idx[v as int])
    &&& (forall|x: int| 0 <= x < n && #[trigger] s0.ons[x] ==> visited(s0, x))
    &&& s1.idx == s0.idx && s1.ons == s0.ons && s1.stk == s0.stk && s1.next == s0.next
    &&& s1.comps == s0.comps && s1.found == s0.found
    &&& s1.low.len() == n
    &&& s1.wrk.len() == t
    &&& (forall|k: int| 0 <= k < t ==> #[trigger] s1.wrk[k] == s0.wrk[k])
    &&& (forall|x: int| 0 <= x < n && x != p ==> #[trigger] s1.low[x] == s0.low[x])
    &&& s1.low[p as int] <= s0.low[p as int] && s1.low[p as int] <= s0.low[v as int]
    &&& (s1.low[p as int] == s0.low[p as int] || s1.low[p as int] == s0.low[v as int])
    &&& (forall|x: int| 0 <= x < n ==> (#[trigger] gray(s1, x) <==> (gray(s0, x) && x != v)))
}

/// A marked vertex's low link is at least the number of the bottom of the
/// component stack.
#[verifier::spinoff_prover]
#[verifier::rlimit(40)]
proof fn lemma_low_floor(g: Seq<Seq<usize>>, s0: Search, x: int)
    requires
        search_ok(g, s0),
        0 <= x < g.len(),
        s0.ons[x],
    ensures
        s0.stk.len() > 0,
        s0.idx[s0.stk[0] as int] <= s0.low[x],
{
    let n = g.len() as int;
    reveal(low_wit_ok);
    reveal(stack_ok);
    reveal(onstack_ok);
    let y = choose|y: int| 0 <= y < n && s0.ons[y] && #[trigger] s0.idx[y] == s0.low[x] && reach(g, x, y);
    assert(stacked(s0.stk, y));
    reveal(stacked);
    let i = choose|i: int| 0 <= i < s0.stk.len() && s0.stk[i] == y as usize;
    if i > 0 {
        assert(s0.idx[s0.stk[0] as int] < s0.idx[s0.stk[i] as int]);
    }
}

#[verifier::spinoff_prover]
#[verifier::rlimit(40)]
proof fn lemma_keep_facts(g: Seq<Seq<usize>>, s0: Search, s1: Search, v: usize) -> (p: usize)
    requires
        search_ok(g, s0),
        keep_step(g, s0, s1, v),
    ensures
        keep_facts(g, s0, s1, v, p),
{
    let n = g.len() as int;
    let t = s0.wrk.len() - 1;
    lemma_top(g, s0, v, g[v as int].len() as usize);
    lemma_low_floor(g, s0, v as int);
    reveal(arrays_ok);
    reveal(work_ok);
    reveal(onstack_ok);
    assert(s0.low[v as int] < s0.idx[v as int]) by {
        reveal(low_le_ok);
    }
    if t == 0 {
        assert(s0.stk[0] == v);
        assert(false);
    }
    let p = s0.wrk[t - 1].0;
    assert(s0.wrk[t - 1].1 >= 1 && g[p as int][s0.wrk[t - 1].1 - 1] == s0.wrk[t].0);
    assert(edge(g, p as int, v as int)) by {
        assert(g[p as int][s0.wrk[t - 1].1 - 1] == v);
    }
    assert(s0.idx[p as int] < s0.idx[v as int]);
    assert(p < n && s0.ons[p as int]);
    assert(forall|k: int| 0 <= k < t ==> #[trigger] s1.wrk[k] == s0.wrk[k]);
    assert(s0.wrk[s0.wrk.len() - 2].0 == p);
    assert forall|x: int| 0 <= x < n implies (#[trigger] gray(s1, x) <==> (gray(s0, x) && x != v)) by {
        if gray(s0, x) && x != v {
            let k = choose|k: int| 0 <= k < s0.wrk.len() && #[trigger] s0.wrk[k].0 == x;
            assert(k < t);
            assert(s1.wrk[k].0 == x);
        }
        if gray(s1, x) {
            let k = choose|k: int| 0 <= k < s1.wrk.len() && #[trigger] s1.wrk[k].0 == x;
            assert(s0.wrk[k].0 == x);
            assert(s0.idx[s0.wrk[k].0 as int] < s0.idx[v as int]);
        }
    }
    p
}

/// A keep step keeps the shape of the search.
#[verifier::spinoff_prover]
#[verifier::rlimit(40)]
proof fn lemma_keep_shape(g: Seq<Seq<usize>>, s0: Search, s1: Search, v: usize, p: usize)
    requires
        search_ok(g, s0),
        keep_facts(g, s0, s1, v, p),
    ensures
        arrays_ok(g, s1),
        numbers_ok(g, s1),
        onstack_ok(g, s1),
        stack_ok(g, s1),
        work_ok(g, s1),
{
    let n = g.len() as int;
    let t = s0.wrk.len() - 1;
    reveal(arrays_ok);
    reveal(numbers_ok);
    reveal(onstack_ok);
    reveal(stack_ok);
    reveal(work_ok);
    assert(visited_set(s1, n) =~= visited_set(s0, n));
    assert forall|k: int| 0 <= k < s1.wrk.len() implies #[trigger] s1.wrk[k].0 < n && s1.wrk[k].1 <= g[
        s1.wrk[k].0 as int].len() && s1.ons[s1.wrk[k].0 as int] by {
        assert(s1.wrk[k] == s0.wrk[k]);
        assert(s0.wrk[k].1 <= g[s0.wrk[k].0 as int].len());
    }
    assert forall|k1: int, k2: int| 0 <= k1 < k2 < s1.wrk.len() implies s1.idx[
        #[trigger] s1.wrk[k1].0 as int] < s1.idx[#[trigger] s1.wrk[k2].0 as int] by {
        assert(s1.wrk[k1] == s0.wrk[k1]);
        assert(s1.wrk[k2] == s0.wrk[k2]);
        assert(s0.idx[s0.wrk[k1].0 as int] < s0.idx[s0.wrk[k2].0 as int]);
    }
    assert forall|k: int| 0 <= k < s1.wrk.len() - 1 implies #[trigger] s1.wrk[k].1 >= 1 && g[
        s1.wrk[k].0 as int][s1.wrk[k].1 - 1] == s1.wrk[k + 1].0 by {
        assert(s1.wrk[k] == s0.wrk[k]);
        assert(s1.wrk[k + 1] == s0.wrk[k + 1]);
        assert(s0.wrk[k].1 >= 1 && g[s0.wrk[k].0 as int][s0.wrk[k].1 - 1] == s0.wrk[k + 1].0);
    }
    assert(s1.stk[0] == s1.wrk[0].0) by {
        assert(s0.stk[0] == s0.wrk[0].0);
        assert(s1.wrk[0] == s0.wrk[0]);
    }
}

#[verifier::spinoff_prover]
#[verifier::rlimit(40)]
proof fn lemma_keep_low_le(g: Seq<Seq<usize>>, s0: Search, s1: Search, v: usize, p: usize)
    requires
        search_ok(g, s0),
        keep_facts(g, s0, s1, v, p),
    ensures
        low_le_ok(g, s1),
{
    let n = g.len() as int;
    reveal(low_le_ok);
    assert forall|x: int| 0 <= x < n && #[trigger] s1.ons[x] implies s1.low[x] <= s1.idx[x] by {
        if x != p {
            assert(s1.low[x] == s0.low[x]);
        }
    }
}

#[verifier::spinoff_prover]
#[verifier::rlimit(40)]
proof fn lemma_keep_low_wit(g: Seq<Seq<usize>>, s0: Search, s1: Search, v: usize, p: usize)
    requires
        search_ok(g, s0),
        keep_facts(g, s0, s1, v, p),
    ensures
        low_wit_ok(g, s1),
{
    let n = g.len() as int;
    reveal(low_wit_ok);
    let yv = choose|y: int| 0 <= y < n && s0.ons[y] && #[trigger] s0.idx[y] == s0.low[v as int] && reach(g, v as int, y);
    lemma_reach_edge(g, p as int, v as int);
    lemma_reach_trans(g, p as int, v as int, yv);
    assert forall|x: int| 0 <= x < n && #[trigger] s1.ons[x] implies exists|y: int|
        0 <= y < n && s1.ons[y] && #[trigger] s1.idx[y] == s1.low[x] && reach(g, x, y) by {
        if x == p && s1.low[p as int] != s0.low[p as int] {
            assert(s1.idx[yv] == s1.low[x]);
        } else {
            assert(s1.low[x] == s0.low[x]);
            let y = choose|y: int| 0 <= y < n && s0.ons[y] && #[trigger] s0.idx[y] == s0.low[x] && reach(g, x, y);
            assert(s1.idx[y] == s1.low[x]);
        }
    }
}

#[verifier::spinoff_prover]
#[verifier::rlimit(40)]
proof fn lemma_keep_low_chain(g: Seq<Seq<usize>>, s0: Search, s1: Search, v: usize, p: usize)
    requires
        search_ok(g, s0),
        keep_facts(g, s0, s1, v, p),
    ensures
        low_chain_ok(g, s1),
{
    let n = g.len() as int;
    let t = s0.wrk.len() - 1;
    reveal(low_chain_ok);
    reveal(numbers_ok);
    assert forall|x: int, k: int|
        0 <= x < n && settled(s1, x) && 0 <= k < s1.wrk.len() && s1.idx[#[trigger] s1.wrk[k].0 as int]
            < s1.idx[x] && (k + 1 == s1.wrk.len() || s1.idx[x] < s1.idx[s1.wrk[k + 1].0 as int])
            implies s1.low[s1.wrk[k].0 as int] <= #[trigger] s1.low[x] by {
        let a = s0.wrk[k].0 as int;
        assert(s1.wrk[k] == s0.wrk[k]);
        assert(gray(s1, x) == (gray(s0, x) && x != v));
        assert(gray(s0, p as int)) by {
            assert(s0.wrk[t - 1].0 == p);
        }
        assert(gray(s1, p as int));
        assert(x != p);
        assert(s1.low[x] == s0.low[x] || x == v);
        if x == v {
            // `v`'s nearest unfinished predecessor is now `p`.
            if k < t - 1 {
                assert(s1.wrk[k + 1] == s0.wrk[k + 1]);
                assert(s0.idx[s0.wrk[k + 1].0 as int] < s0.idx[v as int]);
            }
            assert(k == t - 1);
            assert(a == p);
            assert(s1.low[v as int] == s0.low[v as int]);
        } else {
            assert(settled(s0, x));
            assert(s1.low[x] == s0.low[x]);
            assert(s0.ons[x] && visited(s0, x));
            assert(x != v);
            assert(s0.idx[x] != s0.idx[v as int]);
            if k == t - 1 {
                assert(a == p);
                if s0.idx[x] < s0.idx[v as int] {
                    assert(s0.wrk[k + 1].0 == v);
                    assert(s0.low[s0.wrk[k].0 as int] <= s0.low[x]);
                } else {
                    assert(s0.low[s0.wrk[t].0 as int] <= s0.low[x]);
                }
            } else {
                assert(s1.wrk[k + 1] == s0.wrk[k + 1]);
                assert(s0.low[s0.wrk[k].0 as int] <= s0.low[x]);
                assert(s0.idx[a] < s0.idx[p as int]) by {
                    reveal(work_ok);
                    assert(s0.idx[s0.wrk[k].0 as int] < s0.idx[s0.wrk[t - 1].0 as int]);
                }
                assert(a != p);
                assert(s1.low[a] == s0.low[a]);
            }
        }
    }
}

#[verifier::spinoff_prover]
#[verifier::rlimit(40)]
proof fn lemma_keep_reach_down(g: Seq<Seq<usize>>, s0: Search, s1: Search, v: usize, p: usize)
    requires
        search_ok(g, s0),
        keep_facts(g, s0, s1, v, p),
    ensures
        reach_down_ok(g, s1),
{
    let n = g.len() as int;
    reveal(reach_down_ok);
    assert forall|k: int, x: int|
        0 <= k < s1.wrk.len() && 0 <= x < n && #[trigger] s1.ons[x] && s1.idx[#[trigger] s1.wrk[k].0 as int]
            <= s1.idx[x] implies reach(g, s1.wrk[k].0 as int, x) by {
        assert(s1.wrk[k] == s0.wrk[k]);
    }
}

#[verifier::spinoff_prover]
#[verifier::rlimit(40)]
proof fn lemma_keep_reach_up(g: Seq<Seq<usize>>, s0: Search, s1: Search, v: usize, p: usize)
    requires
        search_ok(g, s0),
        keep_facts(g, s0, s1, v, p),
    ensures
        reach_up_ok(g, s1),
{
    let n = g.len() as int;
    let t = s0.wrk.len() - 1;
    reveal(reach_up_ok);
    // `v` reaches, through its low link, a frame below it.
    assert(exists|y: int| 0 <= y < n && s0.ons[y] && #[trigger] s0.idx[y] == s0.low[v as int] && reach(g, v as int, y)) by {
        reveal(low_wit_ok);
    }
    let y = choose|y: int| 0 <= y < n && s0.ons[y] && #[trigger] s0.idx[y] == s0.low[v as int] && reach(g, v as int, y);
    let k2 = choose|k2: int|
        0 <= k2 < s0.wrk.len() && s0.idx[#[trigger] s0.wrk[k2].0 as int] <= s0.idx[y] && reach(
            g,
            y,
            s0.wrk[k2].0 as int,
        );
    assert(s0.low[v as int] <= s0.idx[v as int]);
    assert(k2 < t);
    let b = s0.wrk[k2].0 as int;
    assert(s1.wrk[k2] == s0.wrk[k2]);
    lemma_reach_trans(g, v as int, y, b);
    assert forall|x: int| 0 <= x < n && #[trigger] s1.ons[x] implies exists|k: int|
        0 <= k < s1.wrk.len() && s1.idx[#[trigger] s1.wrk[k].0 as int] <= s1.idx[x] && reach(
            g,
            x,
            s1.wrk[k].0 as int,
        ) by {
        let k = choose|k: int|
            0 <= k < s0.wrk.len() && s0.idx[#[trigger] s0.wrk[k].0 as int] <= s0.idx[x] && reach(
                g,
                x,
                s0.wrk[k].0 as int,
            );
        if k < t {
            assert(s1.wrk[k] == s0.wrk[k]);
        } else {
            assert(s0.wrk[k].0 == v);
            lemma_reach_trans(g, x, v as int, b);
            assert(s1.wrk[k2].0 as int == b);
        }
    }
}

#[verifier::spinoff_prover]
#[verifier::rlimit(40)]
proof fn lemma_keep_edges(g: Seq<Seq<usize>>, s0: Search, s1: Search, v: usize, p: usize)
    requires
        search_ok(g, s0),
        keep_facts(g, s0, s1, v, p),
    ensures
        settled_edges_ok(g, s1),
        gray_edges_ok(g, s1),
{
    let n = g.len() as int;
    let t = s0.wrk.len() - 1;
    reveal(settled_edges_ok);
    reveal(gray_edges_ok);
    assert forall|x: int, e: int|
        0 <= x < n && settled(s1, x) && 0 <= e < g[x].len() implies visited(s1, #[trigger] g[x][e] as int)
            && (s1.ons[g[x][e] as int] ==> s1.low[x] <= s1.idx[g[x][e] as int]) by {
        assert(gray(s1, x) == (gray(s0, x) && x != v));
        assert(gray(s0, p as int)) by {
            assert(s0.wrk[t - 1].0 == p);
        }
        assert(x != p);
        assert(s1.low[x] == s0.low[x]);
        if x == v {
            assert(s0.wrk[t].1 == g[v as int].len());
            assert(g[s0.wrk[t].0 as int][e] == g[x][e]);
        }
    }
    assert forall|k: int, e: int| 0 <= k < s1.wrk.len() && 0 <= e < s1.wrk[k].1 implies visited(
        s1,
        #[trigger] g[s1.wrk[k].0 as int][e] as int,
    ) && (s1.ons[g[s1.wrk[k].0 as int][e] as int] ==> s1.low[s1.wrk[k].0 as int] <= s1.idx[g[
        s1.wrk[k].0 as int][e] as int]) by {
        assert(s1.wrk[k] == s0.wrk[k]);
        let a = s0.wrk[k].0 as int;
        if a != p {
            assert(s1.low[a] == s0.low[a]);
        }
    }
}

/// Finishing a vertex whose component is not complete keeps the invariant.
#[verifier::spinoff_prover]
#[verifier::rlimit(40)]
pub proof fn lemma_keep(g: Seq<Seq<usize>>, s0: Search, s1: Search, v: usize)
    requires
        search_ok(g, s0),
        keep_step(g, s0, s1, v),
    ensures
        search_ok(g, s1),
{
    let p = lemma_keep_facts(g, s0, s1, v);
    lemma_keep_shape(g, s0, s1, v, p);
    lemma_keep_low_le(g, s0, s1, v, p);
    lemma_keep_low_wit(g, s0, s1, v, p);
    lemma_keep_low_chain(g, s0, s1, v, p);
    lemma_keep_reach_down(g, s0, s1, v, p);
    lemma_keep_reach_up(g, s0, s1, v, p);
    lemma_keep_edges(g, s0, s1, v, p);
    lemma_comps_frame(g, s0, s1);
}


// ---------------------------------------------------------------------
// Starting from a new root
// ---------------------------------------------------------------------

/// The search after discovering root `r` with both stacks empty.
pub open spec fn root_step(g: Seq<Seq<usize>>, s0: Search, s1: Search, r: usize) -> bool {
    &&& s0.wrk.len() == 0
    &&& r < g.len()
    &&& !visited(s0, r as int)
    &&& s1 == (Search {
        idx: s0.idx.update(r as int, s0.next as usize),
        low: s0.low.update(r as int, s0.next as usize),
        ons: s0.ons.update(r as int, true),
        stk: seq![r],
        wrk: seq![(r, 0usize)],
        next: s0.next + 1,
        ..s0
    })
}

/// What a root step keeps and changes.
pub open spec fn root_facts(g: Seq<Seq<usize>>, s0: Search, s1: Search, r: usize) -> bool {
    let n = g.len() as int;
    &&& r < n
    &&& s0.next < n
    &&& (forall|x: int| 0 <= x < n ==> !#[trigger] s0.ons[x])
    &&& (forall|x: int| 0 <= x < n ==> (#[trigger] s1.ons[x] <==> x == r))
    &&& (forall|x: int| 0 <= x < n && x != r ==> #[trigger] s1.idx[x] == s0.idx[x])
    &&& s1.idx[r as int] == s0.next && s1.low[r as int] == s0.next
    &&& !visited(s0, r as int)
    &&& s1.stk == seq![r] && s1.wrk == seq![(r, 0usize)]
    &&& s1.comps == s0.comps && s1.found == s0.found
    &&& (forall|x: int| 0 <= x < n ==> (#[trigger] popped(s1, x) <==> popped(s0, x)))
    &&& (forall|x: int| 0 <= x < n ==> (#[trigger] gray(s1, x) <==> x == r))
}

#[verifier::spinoff_prover]
#[verifier::rlimit(40)]
proof fn lemma_root_facts(g: Seq<Seq<usize>>, s0: Search, s1: Search, r: usize)
    requires
        search_ok(g, s0),
        root_step(g, s0, s1, r),
    ensures
        root_facts(g, s0, s1, r),
        arrays_ok(g, s1),
        numbers_ok(g, s1),
{
    let n = g.len() as int;
    reveal(work_ok);
    reveal(onstack_ok);
    reveal(stacked);
    reveal(arrays_ok);
    lemma_number(g, s0, s1, r as int);
    assert forall|x: int| 0 <= x < n implies !#[trigger] s0.ons[x] by {
        if s0.ons[x] {
            assert(stacked(s0.stk, x));
        }
    }
    assert forall|x: int| 0 <= x < n implies (#[trigger] gray(s1, x) <==> x == r) by {
        if x == r {
            assert(s1.wrk[0].0 == r);
        }
    }
}

#[verifier::spinoff_prover]
#[verifier::rlimit(40)]
proof fn lemma_root_shape(g: Seq<Seq<usize>>, s0: Search, s1: Search, r: usize)
    requires
        search_ok(g, s0),
        root_facts(g, s0, s1, r),
    ensures
        onstack_ok(g, s1),
        stack_ok(g, s1),
        work_ok(g, s1),
        low_le_ok(g, s1),
        low_wit_ok(g, s1),
        low_chain_ok(g, s1),
{
    let n = g.len() as int;
    reveal(onstack_ok);
    reveal(stack_ok);
    reveal(work_ok);
    reveal(low_le_ok);
    reveal(low_wit_ok);
    reveal(low_chain_ok);
    reveal(stacked);
    assert(s1.stk[0] == r);
    lemma_reach_refl(g, r as int);
    assert(s1.idx[r as int] == s1.low[r as int]);
}

#[verifier::spinoff_prover]
#[verifier::rlimit(40)]
proof fn lemma_root_rest(g: Seq<Seq<usize>>, s0: Search, s1: Search, r: usize)
    requires
        search_ok(g, s0),
        root_facts(g, s0, s1, r),
    ensures
        reach_down_ok(g, s1),
        reach_up_ok(g, s1),
        settled_edges_ok(g, s1),
        gray_edges_ok(g, s1),
{
    let n = g.len() as int;
    reveal(reach_down_ok);
    reveal(reach_up_ok);
    reveal(settled_edges_ok);
    reveal(gray_edges_ok);
    lemma_reach_refl(g, r as int);
    assert(s1.wrk[0].0 == r);
}

#[verifier::spinoff_prover]
#[verifier::rlimit(40)]
proof fn lemma_root_popped(g: Seq<Seq<usize>>, s0: Search, s1: Search, r: usize)
    requires
        search_ok(g, s0),
        root_facts(g, s0, s1, r),
    ensures
        popped_edges_ok(g, s1),
        comps_ok(g, s1),
{
    let n = g.len() as int;
    reveal(popped_edges_ok);
    reveal(comps_ok);
    assert forall|x: int, e: int| 0 <= x < n && popped(s1, x) && 0 <= e < g[x].len() implies popped(
        s1,
        #[trigger] g[x][e] as int,
    ) by {
        assert(popped(s0, x));
        assert(popped(s0, g[x][e] as int));
        assert(g[x][e] < n);
    }
    assert forall|j: int, i: int|
        0 <= j < s1.comps.len() && 0 <= i < s1.comps[j].len() implies popped(s1, #[trigger] s1.comps[j][i] as int) by {
        assert(is_component(g, s0.comps[j]));
        assert(popped(s0, s0.comps[j][i] as int));
    }
    assert forall|x: int| 0 <= x < n && #[trigger] popped(s1, x) implies exists|j: int, i: int|
        0 <= j < s1.comps.len() && 0 <= i < s1.comps[j].len() && #[trigger] s1.comps[j][i] == x by {
        assert(popped(s0, x));
    }
}

/// Discovering a new root keeps the invariant.
#[verifier::spinoff_prover]
#[verifier::rlimit(40)]
pub proof fn lemma_root(g: Seq<Seq<usize>>, s0: Search, s1: Search, r: usize)
    requires
        search_ok(g, s0),
        root_step(g, s0, s1, r),
    ensures
        search_ok(g, s1),
{
    lemma_root_facts(g, s0, s1, r);
    lemma_root_shape(g, s0, s1, r);
    lemma_root_rest(g, s0, s1, r);
    lemma_root_popped(g, s0, s1, r);
}


// ---------------------------------------------------------------------
// Completing a component
// ---------------------------------------------------------------------

/// The exhausted top frame is `v`, whose low link is its own number: `v`
/// is the first vertex of its component to be discovered.
pub open spec fn closing(g: Seq<Seq<usize>>, s0: Search, v: usize) -> bool {
    &&& s0.wrk.len() > 0
    &&& s0.wrk.last() == (v, g[v as int].len() as usize)
    &&& s0.low[v as int] == s0.idx[v as int]
}

/// Whether component `c` with first vertex `v` is a cycle: it has more than
/// one vertex, or `v` has an edge to itself.
pub open spec fn cycle_flag(g: Seq<Seq<usize>>, c: Seq<usize>, v: usize) -> bool {
    c.len() > 1 || g[v as int].contains(v)
}

/// The search after popping the component of the closing vertex `v`, which
/// sits at position `p` of the component stack: everything from `p` up is
/// unmarked and recorded as a component, and as a cycle when it is one.
pub open spec fn pop_step(g: Seq<Seq<usize>>, s0: Search, s1: Search, v: usize, p: int) -> bool {
    let comp = s0.stk.subrange(p, s0.stk.len() as int);
    &&& closing(g, s0, v)
    &&& 0 <= p < s0.stk.len()
    &&& s0.stk[p] == v
    &&& s1 == (Search {
        low: handed_low(s0, v),
        ons: Seq::new(s0.ons.len(), |x: int| s0.ons[x] && s0.idx[x] < s0.idx[v as int]),
        stk: s0.stk.subrange(0, p),
        wrk: s0.wrk.drop_last(),
        comps: s0.comps.push(comp),
        found: if cycle_flag(g, comp, v) {
            s0.found.push(comp)
        } else {
            s0.found
        },
        ..s0
    })
}

/// Every edge out of a vertex marked no earlier than the closing vertex `v`
/// leads to a discovered vertex, and not to one marked before `v`.
#[verifier::spinoff_prover]
#[verifier::rlimit(40)]
proof fn lemma_pop_edge(g: Seq<Seq<usize>>, s0: Search, v: usize, c: int, e: int)
    requires
        search_ok(g, s0),
        closing(g, s0, v),
        0 <= c < g.len(),
        s0.ons[c],
        s0.idx[c] >= s0.idx[v as int],
        0 <= e < g[c].len(),
    ensures
        g[c][e] < g.len(),
        visited(s0, g[c][e] as int),
        s0.ons[g[c][e] as int] ==> s0.idx[g[c][e] as int] >= s0.idx[v as int],
{
    let n = g.len() as int;
    let t = s0.wrk.len() - 1;
    let d = g[c][e] as int;
    lemma_top(g, s0, v, g[v as int].len() as usize);
    assert(d < n);
    reveal(gray_edges_ok);
    reveal(settled_edges_ok);
    reveal(low_chain_ok);
    reveal(numbers_ok);
    reveal(onstack_ok);
    if c == v {
        assert(s0.wrk[t].1 == g[v as int].len());
        assert(g[s0.wrk[t].0 as int][e] == d);
        assert(s0.ons[d] ==> s0.low[v as int] <= s0.idx[d]);
    } else {
        if gray(s0, c) {
            let k = choose|k: int| 0 <= k < s0.wrk.len() && #[trigger] s0.wrk[k].0 == c;
            if k < t {
                assert(s0.idx[s0.wrk[k].0 as int] < s0.idx[v as int]);
            }
            assert(false);
        }
        assert(settled(s0, c));
        assert(visited(s0, d));
        assert(s0.ons[d] ==> s0.low[c] <= s0.idx[d]);
        assert(visited(s0, c) && visited(s0, v as int));
        assert(s0.idx[c] != s0.idx[v as int]);
        assert(s0.wrk[t].0 == v);
        assert(s0.low[s0.wrk[t].0 as int] <= s0.low[c]);
    }
}

/// Whatever the closing vertex `v` reaches and that still reaches a marked
/// vertex is marked no earlier than `v`.
#[verifier::spinoff_prover]
#[verifier::rlimit(40)]
proof fn lemma_no_escape(g: Seq<Seq<usize>>, s0: Search, v: usize, z: int, u: int)
    requires
        search_ok(g, s0),
        closing(g, s0, v),
        0 <= z < g.len(),
        0 <= u < g.len(),
        reach(g, v as int, z),
        reach(g, z, u),
        s0.ons[u],
    ensures
        s0.ons[z],
        s0.idx[z] >= s0.idx[v as int],
{
    let n = g.len() as int;
    lemma_top(g, s0, v, g[v as int].len() as usize);
    let pr = |x: int| 0 <= x < n && s0.ons[x] && s0.idx[x] >= s0.idx[v as int];
    if !pr(z) {
        let (c, d) = lemma_exit(g, pr, v as int, z);
        let e = choose|e: int| 0 <= e < g[c].len() && #[trigger] g[c][e] == d;
        lemma_pop_edge(g, s0, v, c, e);
        let q = |x: int| 0 <= x < n && popped(s0, x);
        if q(d) {
            assert forall|x: int, y: int| #[trigger] q(x) && #[trigger] edge(g, x, y) implies q(y) by {
                reveal(popped_edges_ok);
                let e2 = choose|e2: int| 0 <= e2 < g[x].len() && #[trigger] g[x][e2] == y;
                assert(g[x][e2] < n);
            }
            lemma_reach_trans(g, d, z, u);
            lemma_closed(g, q, d, u);
        }
    }
}

/// The facts of a pop step.
pub open spec fn pop_facts(g: Seq<Seq<usize>>, s0: Search, s1: Search, v: usize, p: int) -> bool {
    let n = g.len() as int;
    let t = s0.wrk.len() - 1;
    let comp = s0.stk.subrange(p, s0.stk.len() as int);
    &&& s0.wrk.len() > 0
    &&& s0.wrk[t].0 == v && s0.wrk[t].1 == g[v as int].len()
    &&& v < n && s0.ons[v as int] && visited(s0, v as int)
    &&& s0.low[v as int] == s0.idx[v as int]
    &&& 0 <= p < s0.stk.len() && s0.stk[p] == v
    &&& comp.len() >= 1 && comp[0] == v
    &&& (forall|x: int| 0 <= x < n ==> (#[trigger] comp.contains(x as usize) <==> (s0.ons[x] && s0.idx[x] >= s0.idx[v as int])))
    &&& (forall|i: int| 0 <= i < comp.len() ==> #[trigger] comp[i] < n && s0.ons[comp[i] as int] && s0.idx[comp[i] as int] >= s0.idx[v as int])
    &&& (forall|i: int, j: int| 0 <= i < j < comp.len() ==> #[trigger] comp[i] != #[trigger] comp[j])
    &&& (forall|k: int| 0 <= k < t ==> #[trigger] s0.wrk[k].0 < n && s0.ons[s0.wrk[k].0 as int] && s0.idx[s0.wrk[k].0 as int] < s0.idx[v as int])
    &&& (forall|x: int| 0 <= x < n && #[trigger] s0.ons[x] ==> visited(s0, x))
    &&& s1.low == s0.low && s1.idx == s0.idx && s1.next == s0.next
    &&& s1.ons.len() == n
    &&& (forall|x: int| 0 <= x < n ==> #[trigger] s1.ons[x] == (s0.ons[x] && s0.idx[x] < s0.idx[v as int]))
    &&& s1.stk == s0.stk.subrange(0, p)
    &&& (forall|i: int| 0 <= i < p ==> s0.idx[#[trigger] s0.stk[i] as int] < s0.idx[v as int])
    &&& (p == 0 <==> t == 0)
    &&& s1.wrk.len() == t
    &&& (forall|k: int| 0 <= k < t ==> #[trigger] s1.wrk[k] == s0.wrk[k])
    &&& (forall|x: int| 0 <= x < n ==> (#[trigger] gray(s1, x) <==> (gray(s0, x) && x != v)))
    &&& s1.comps == s0.comps.push(comp)
    &&& s1.found == (if cycle_flag(g, comp, v) { s0.found.push(comp) } else { s0.found })
}

#[verifier::spinoff_prover]
#[verifier::rlimit(40)]
proof fn lemma_pop_facts(g: Seq<Seq<usize>>, s0: Search, s1: Search, v: usize, p: int)
    requires
        search_ok(g, s0),
        pop_step(g, s0, s1, v, p),
    ensures
        pop_facts(g, s0, s1, v, p),
        arrays_ok(g, s1),
        numbers_ok(g, s1),
{
    let n = g.len() as int;
    let t = s0.wrk.len() - 1;
    let comp = s0.stk.subrange(p, s0.stk.len() as int);
    lemma_top(g, s0, v, g[v as int].len() as usize);
    reveal(arrays_ok);
    reveal(numbers_ok);
    reveal(onstack_ok);
    reveal(stack_ok);
    reveal(work_ok);
    reveal(stacked);
    assert(visited_set(s1, n) =~= visited_set(s0, n));
    assert forall|i: int| 0 <= i < s0.stk.len() implies (#[trigger] s0.idx[s0.stk[i] as int] >= s0.idx[v as int] <==> i >= p) by {
        assert(s0.stk[i] < n && s0.ons[s0.stk[i] as int]);
        if i < p {
            assert(s0.idx[s0.stk[i] as int] < s0.idx[s0.stk[p] as int]);
        } else if i > p {
            assert(s0.idx[s0.stk[p] as int] < s0.idx[s0.stk[i] as int]);
        }
    }
    assert forall|x: int| 0 <= x < n implies (#[trigger] comp.contains(x as usize) <==> (s0.ons[x] && s0.idx[x] >= s0.idx[v as int])) by {
        if comp.contains(x as usize) {
            let i = choose|i: int| 0 <= i < comp.len() && comp[i] == x as usize;
            assert(s0.stk[p + i] == x as usize);
            assert(s0.stk[p + i] < n && s0.ons[s0.stk[p + i] as int]);
            assert(s0.idx[s0.stk[p + i] as int] >= s0.idx[v as int]);
        }
        if s0.ons[x] && s0.idx[x] >= s0.idx[v as int] {
            assert(stacked(s0.stk, x));
            let i = choose|i: int| 0 <= i < s0.stk.len() && s0.stk[i] == x as usize;
            assert(s0.idx[s0.stk[i] as int] >= s0.idx[v as int]);
            assert(i >= p);
            assert(comp[i - p] == x as usize);
        }
    }
    assert forall|i: int| 0 <= i < comp.len() implies #[trigger] comp[i] < n && s0.ons[comp[i] as int] && s0.idx[comp[i] as int] >= s0.idx[v as int] by {
        assert(comp[i] == s0.stk[p + i]);
        assert(s0.stk[p + i] < n && s0.ons[s0.stk[p + i] as int]);
        assert(s0.idx[s0.stk[p + i] as int] >= s0.idx[v as int]);
    }
    assert forall|i: int, j: int| 0 <= i < j < comp.len() implies #[trigger] comp[i] != #[trigger] comp[j] by {
        assert(s0.idx[s0.stk[p + i] as int] < s0.idx[s0.stk[p + j] as int]);
    }
    assert forall|k: int| 0 <= k < t implies #[trigger] s0.wrk[k].0 < n && s0.ons[s0.wrk[k].0 as int] && s0.idx[s0.wrk[k].0 as int] < s0.idx[v as int] by {
        assert(s0.wrk[k].0 < n);
    }
    assert forall|i: int| 0 <= i < p implies s0.idx[#[trigger] s0.stk[i] as int] < s0.idx[v as int] by {
        assert(s0.idx[s0.stk[i] as int] >= s0.idx[v as int] <==> i >= p);
    }
    if t == 0 {
        assert(s0.stk[0] == v);
        if p > 0 {
            assert(s0.idx[s0.stk[0] as int] < s0.idx[v as int]);
        }
    } else {
        assert(s0.stk[0] == s0.wrk[0].0);
        assert(s0.idx[s0.wrk[0].0 as int] < s0.idx[v as int]);
    }
    // The low link of the frame below `v` is already at most `v`'s number.
    if t > 0 {
        let q = s0.wrk[t - 1].0 as int;
        assert(s0.wrk[s0.wrk.len() - 2].0 == q);
        assert(s0.low[q] <= s0.idx[q]) by {
            reveal(low_le_ok);
        }
    }
    assert(s1.low =~= s0.low);
    assert forall|k: int| 0 <= k < t implies #[trigger] s1.wrk[k] == s0.wrk[k] by {}
    assert forall|x: int| 0 <= x < n implies (#[trigger] gray(s1, x) <==> (gray(s0, x) && x != v)) by {
        if gray(s0, x) && x != v {
            let k = choose|k: int| 0 <= k < s0.wrk.len() && #[trigger] s0.wrk[k].0 == x;
            assert(k < t);
            assert(s1.wrk[k].0 == x);
        }
        if gray(s1, x) {
            let k = choose|k: int| 0 <= k < s1.wrk.len() && #[trigger] s1.wrk[k].0 == x;
            assert(s0.wrk[k].0 == x);
        }
    }
}


/// The popped vertices are exactly the strongly connected component of the
/// closing vertex, and it is a cycle exactly when the cycle flag says so.
#[verifier::spinoff_prover]
#[verifier::rlimit(40)]
proof fn lemma_pop_component(g: Seq<Seq<usize>>, s0: Search, s1: Search, v: usize, p: int)
    requires
        search_ok(g, s0),
        pop_step(g, s0, s1, v, p),
        pop_facts(g, s0, s1, v, p),
    ensures
        is_component(g, s0.stk.subrange(p, s0.stk.len() as int)),
        cycle_flag(g, s0.stk.subrange(p, s0.stk.len() as int), v) <==> on_cycle(g, v as int),
{
    let n = g.len() as int;
    let t = s0.wrk.len() - 1;
    let comp = s0.stk.subrange(p, s0.stk.len() as int);
    assert forall|y: int| 0 <= y < n implies (comp.contains(y as usize) <==> mates(g, comp[0] as int, y)) by {
        if comp.contains(y as usize) {
            assert(s0.ons[y] && s0.idx[y] >= s0.idx[v as int]);
            assert(reach(g, v as int, y)) by {
                reveal(reach_down_ok);
                assert(s0.wrk[t].0 == v);
            }
            assert(exists|k: int|
                0 <= k < s0.wrk.len() && s0.idx[#[trigger] s0.wrk[k].0 as int] <= s0.idx[y] && reach(
                    g,
                    y,
                    s0.wrk[k].0 as int,
                )) by {
                reveal(reach_up_ok);
            }
            let k = choose|k: int|
                0 <= k < s0.wrk.len() && s0.idx[#[trigger] s0.wrk[k].0 as int] <= s0.idx[y] && reach(
                    g,
                    y,
                    s0.wrk[k].0 as int,
                );
            if k < t {
                let a = s0.wrk[k].0 as int;
                assert(a < n && s0.ons[a] && s0.idx[a] < s0.idx[v as int]);
                lemma_reach_trans(g, v as int, y, a);
                lemma_reach_refl(g, a);
                lemma_no_escape(g, s0, v, a, a);
            }
            assert(s0.wrk[k].0 == v);
        }
        if mates(g, comp[0] as int, y) {
            lemma_no_escape(g, s0, v, y, v as int);
        }
    }
    if cycle_flag(g, comp, v) {
        if comp.len() > 1 {
            let x = comp[1] as int;
            assert(comp[0] != comp[1]);
            assert(comp.contains(x as usize));
            assert(mates(g, v as int, x));
            let b = lemma_first_edge(g, v as int, x);
            lemma_reach_trans(g, b, x, v as int);
            assert(edge(g, v as int, b) && reach(g, b, v as int));
        } else {
            let e = choose|e: int| 0 <= e < g[v as int].len() && g[v as int][e] == v;
            assert(edge(g, v as int, v as int)) by {
                assert(g[v as int][e] == v);
            }
            lemma_reach_refl(g, v as int);
        }
        assert(on_cycle(g, v as int));
    }
    if on_cycle(g, v as int) {
        let b = choose|b: int| #[trigger] edge(g, v as int, b) && reach(g, b, v as int);
        let e = choose|e: int| 0 <= e < g[v as int].len() && #[trigger] g[v as int][e] == b;
        assert(b < n) by {
            assert(g[v as int][e] < n);
        }
        lemma_reach_edge(g, v as int, b);
        assert(mates(g, v as int, b));
        assert(comp.contains(b as usize));
        if b == v {
            assert(g[v as int][e] == v);
            assert(g[v as int].contains(v));
        } else {
            let i = choose|i: int| 0 <= i < comp.len() && comp[i] == b as usize;
            assert(i != 0);
        }
    }
}

/// A pop step keeps the stacks well formed.
#[verifier::spinoff_prover]
#[verifier::rlimit(40)]
proof fn lemma_pop_stacks(g: Seq<Seq<usize>>, s0: Search, s1: Search, v: usize, p: int)
    requires
        search_ok(g, s0),
        pop_facts(g, s0, s1, v, p),
    ensures
        onstack_ok(g, s1),
        stack_ok(g, s1),
        work_ok(g, s1),
{
    let n = g.len() as int;
    let t = s0.wrk.len() - 1;
    reveal(onstack_ok);
    reveal(stack_ok);
    reveal(work_ok);
    assert forall|x: int| 0 <= x < n && #[trigger] s1.ons[x] implies visited(s1, x) && stacked(s1.stk, x) by {
        reveal(stacked);
        assert(s0.ons[x] && s0.idx[x] < s0.idx[v as int]);
        assert(stacked(s0.stk, x));
        let i = choose|i: int| 0 <= i < s0.stk.len() && s0.stk[i] == x as usize;
        if i >= p {
            let comp = s0.stk.subrange(p, s0.stk.len() as int);
            assert(comp[i - p] == x as usize);
            assert(s0.idx[comp[i - p] as int] >= s0.idx[v as int]);
        }
        assert(s1.stk[i] == x as usize);
    }
    assert forall|i: int| 0 <= i < s1.stk.len() implies #[trigger] s1.stk[i] < n && s1.ons[s1.stk[i] as int] by {
        assert(s1.stk[i] == s0.stk[i]);
        assert(s0.stk[i] < n && s0.ons[s0.stk[i] as int]);
        assert(s0.idx[s0.stk[i] as int] < s0.idx[v as int]);
    }
    assert forall|i: int, j: int| 0 <= i < j < s1.stk.len() implies s1.idx[#[trigger] s1.stk[i] as int]
        < s1.idx[#[trigger] s1.stk[j] as int] by {
        assert(s1.stk[i] == s0.stk[i] && s1.stk[j] == s0.stk[j]);
        assert(s0.idx[s0.stk[i] as int] < s0.idx[s0.stk[j] as int]);
    }
    assert forall|k: int| 0 <= k < s1.wrk.len() implies #[trigger] s1.wrk[k].0 < n && s1.wrk[k].1 <= g[
        s1.wrk[k].0 as int].len() && s1.ons[s1.wrk[k].0 as int] by {
        assert(s1.wrk[k] == s0.wrk[k]);
        assert(s0.wrk[k].1 <= g[s0.wrk[k].0 as int].len());
        assert(s0.wrk[k].0 < n && s0.ons[s0.wrk[k].0 as int] && s0.idx[s0.wrk[k].0 as int] < s0.idx[v as int]);
    }
    assert forall|k1: int, k2: int| 0 <= k1 < k2 < s1.wrk.len() implies s1.idx[
        #[trigger] s1.wrk[k1].0 as int] < s1.idx[#[trigger] s1.wrk[k2].0 as int] by {
        assert(s1.wrk[k1] == s0.wrk[k1]);
        assert(s1.wrk[k2] == s0.wrk[k2]);
        assert(s0.idx[s0.wrk[k1].0 as int] < s0.idx[s0.wrk[k2].0 as int]);
    }
    assert forall|k: int| 0 <= k < s1.wrk.len() - 1 implies #[trigger] s1.wrk[k].1 >= 1 && g[
        s1.wrk[k].0 as int][s1.wrk[k].1 - 1] == s1.wrk[k + 1].0 by {
        assert(s1.wrk[k] == s0.wrk[k]);
        assert(s1.wrk[k + 1] == s0.wrk[k + 1]);
        assert(s0.wrk[k].1 >= 1 && g[s0.wrk[k].0 as int][s0.wrk[k].1 - 1] == s0.wrk[k + 1].0);
    }
    if t > 0 {
        assert(s0.stk[0] == s0.wrk[0].0);
        assert(s1.wrk[0] == s0.wrk[0]);
        assert(s1.stk[0] == s0.stk[0]);
    }
}

/// A pop step keeps the low links sound.
#[verifier::spinoff_prover]
#[verifier::rlimit(40)]
proof fn lemma_pop_low(g: Seq<Seq<usize>>, s0: Search, s1: Search, v: usize, p: int)
    requires
        search_ok(g, s0),
        pop_facts(g, s0, s1, v, p),
    ensures
        low_le_ok(g, s1),
        low_wit_ok(g, s1),
{
    let n = g.len() as int;
    reveal(low_le_ok);
    reveal(low_wit_ok);
    assert forall|x: int| 0 <= x < n && #[trigger] s1.ons[x] implies s1.low[x] <= s1.idx[x] by {
        assert(s0.ons[x]);
    }
    assert forall|x: int| 0 <= x < n && s1.ons[x] implies exists|y: int|
        0 <= y < n && s1.ons[y] && #[trigger] s1.idx[y] == #[trigger] s1.low[x] && reach(g, x, y) by {
        assert(s0.ons[x] && s0.idx[x] < s0.idx[v as int]);
        let y = choose|y: int| 0 <= y < n && s0.ons[y] && #[trigger] s0.idx[y] == #[trigger] s0.low[x] && reach(g, x, y);
        assert(s0.low[x] <= s0.idx[x]);
        assert(s1.ons[y]);
    }
}

/// A pop step keeps the low links ordered along the stacks.
#[verifier::spinoff_prover]
#[verifier::rlimit(40)]
proof fn lemma_pop_chain(g: Seq<Seq<usize>>, s0: Search, s1: Search, v: usize, p: int)
    requires
        search_ok(g, s0),
        pop_facts(g, s0, s1, v, p),
    ensures
        low_chain_ok(g, s1),
{
    let n = g.len() as int;
    let t = s0.wrk.len() - 1;
    reveal(low_chain_ok);
    assert forall|x: int, k: int|
        0 <= x < n && settled(s1, x) && 0 <= k < s1.wrk.len() && s1.idx[#[trigger] s1.wrk[k].0 as int]
            < s1.idx[x] && (k + 1 == s1.wrk.len() || s1.idx[x] < s1.idx[s1.wrk[k + 1].0 as int])
            implies s1.low[s1.wrk[k].0 as int] <= #[trigger] s1.low[x] by {
        assert(s0.ons[x] && s0.idx[x] < s0.idx[v as int]);
        assert(x != v);
        assert(gray(s1, x) == (gray(s0, x) && x != v));
        assert(settled(s0, x));
        assert(s1.wrk[k] == s0.wrk[k]);
        if k + 1 < t {
            assert(s1.wrk[k + 1] == s0.wrk[k + 1]);
        } else {
            assert(s0.wrk[k + 1].0 == v);
        }
        assert(s0.low[s0.wrk[k].0 as int] <= s0.low[x]);
    }
}

/// A pop step keeps the stacks' reachability.
#[verifier::spinoff_prover]
#[verifier::rlimit(40)]
proof fn lemma_pop_reach(g: Seq<Seq<usize>>, s0: Search, s1: Search, v: usize, p: int)
    requires
        search_ok(g, s0),
        pop_facts(g, s0, s1, v, p),
    ensures
        reach_down_ok(g, s1),
        reach_up_ok(g, s1),
{
    let n = g.len() as int;
    let t = s0.wrk.len() - 1;
    reveal(reach_down_ok);
    reveal(reach_up_ok);
    assert forall|k: int, x: int|
        0 <= k < s1.wrk.len() && 0 <= x < n && #[trigger] s1.ons[x] && s1.idx[#[trigger] s1.wrk[k].0 as int]
            <= s1.idx[x] implies reach(g, s1.wrk[k].0 as int, x) by {
        assert(s1.wrk[k] == s0.wrk[k]);
        assert(s0.ons[x]);
    }
    assert forall|x: int| 0 <= x < n && #[trigger] s1.ons[x] implies exists|k: int|
        0 <= k < s1.wrk.len() && s1.idx[#[trigger] s1.wrk[k].0 as int] <= s1.idx[x] && reach(
            g,
            x,
            s1.wrk[k].0 as int,
        ) by {
        assert(s0.ons[x] && s0.idx[x] < s0.idx[v as int]);
        let k = choose|k: int|
            0 <= k < s0.wrk.len() && s0.idx[#[trigger] s0.wrk[k].0 as int] <= s0.idx[x] && reach(
                g,
                x,
                s0.wrk[k].0 as int,
            );
        if k == t {
            assert(s0.wrk[t].0 == v);
        }
        assert(s1.wrk[k] == s0.wrk[k]);
    }
}

/// A pop step keeps the followed edges sound.
#[verifier::spinoff_prover]
#[verifier::rlimit(40)]
proof fn lemma_pop_edges(g: Seq<Seq<usize>>, s0: Search, s1: Search, v: usize, p: int)
    requires
        search_ok(g, s0),
        pop_facts(g, s0, s1, v, p),
    ensures
        settled_edges_ok(g, s1),
        gray_edges_ok(g, s1),
{
    let n = g.len() as int;
    let t = s0.wrk.len() - 1;
    reveal(settled_edges_ok);
    reveal(gray_edges_ok);
    assert forall|x: int, e: int|
        0 <= x < n && settled(s1, x) && 0 <= e < g[x].len() implies visited(s1, #[trigger] g[x][e] as int)
            && (s1.ons[g[x][e] as int] ==> s1.low[x] <= s1.idx[g[x][e] as int]) by {
        assert(s0.ons[x] && s0.idx[x] < s0.idx[v as int]);
        assert(x != v);
        assert(gray(s1, x) == (gray(s0, x) && x != v));
        assert(settled(s0, x));
        assert(g[x][e] < n) by {
            assert(graph_ok(g));
        }
        if s1.ons[g[x][e] as int] {
            assert(s0.ons[g[x][e] as int]);
        }
    }
    assert forall|k: int, e: int| 0 <= k < s1.wrk.len() && 0 <= e < s1.wrk[k].1 implies visited(
        s1,
        #[trigger] g[s1.wrk[k].0 as int][e] as int,
    ) && (s1.ons[g[s1.wrk[k].0 as int][e] as int] ==> s1.low[s1.wrk[k].0 as int] <= s1.idx[g[
        s1.wrk[k].0 as int][e] as int]) by {
        assert(s1.wrk[k] == s0.wrk[k]);
        let a = s0.wrk[k].0 as int;
        assert(a < n);
        assert(e < g[a].len()) by {
            reveal(work_ok);
            assert(s0.wrk[k].1 <= g[s0.wrk[k].0 as int].len());
        }
        assert(g[a][e] < n) by {
            assert(graph_ok(g));
        }
        if s1.ons[g[a][e] as int] {
            assert(s0.ons[g[a][e] as int]);
        }
    }
}


/// After a pop step, the completed components have edges only into
/// completed components.
#[verifier::spinoff_prover]
#[verifier::rlimit(40)]
proof fn lemma_pop_popped(g: Seq<Seq<usize>>, s0: Search, s1: Search, v: usize, p: int)
    requires
        search_ok(g, s0),
        pop_step(g, s0, s1, v, p),
        pop_facts(g, s0, s1, v, p),
    ensures
        popped_edges_ok(g, s1),
{
    let n = g.len() as int;
    reveal(popped_edges_ok);
    assert forall|x: int, e: int| 0 <= x < n && popped(s1, x) && 0 <= e < g[x].len() implies popped(
        s1,
        #[trigger] g[x][e] as int,
    ) by {
        let d = g[x][e] as int;
        assert(d < n) by {
            assert(graph_ok(g));
        }
        if popped(s0, x) {
            assert(popped(s0, d));
        } else {
            assert(s0.ons[x] && s0.idx[x] >= s0.idx[v as int]);
            lemma_pop_edge(g, s0, v, x, e);
        }
    }
}

/// After a pop step, the completed components are as recorded.
#[verifier::spinoff_prover]
#[verifier::rlimit(40)]
proof fn lemma_pop_comps(g: Seq<Seq<usize>>, s0: Search, s1: Search, v: usize, p: int)
    requires
        search_ok(g, s0),
        pop_step(g, s0, s1, v, p),
        pop_facts(g, s0, s1, v, p),
        is_component(g, s0.stk.subrange(p, s0.stk.len() as int)),
        cycle_flag(g, s0.stk.subrange(p, s0.stk.len() as int), v) <==> on_cycle(g, v as int),
    ensures
        comps_ok(g, s1),
{
    let n = g.len() as int;
    let comp = s0.stk.subrange(p, s0.stk.len() as int);
    let m = s0.comps.len() as int;
    reveal(comps_ok);
    assert(s1.comps[m] == comp);
    assert forall|j: int| 0 <= j < s1.comps.len() implies #[trigger] is_component(g, s1.comps[j]) by {
        if j < m {
            assert(s1.comps[j] == s0.comps[j]);
        }
    }
    assert forall|j: int, i: int|
        0 <= j < s1.comps.len() && 0 <= i < s1.comps[j].len() implies popped(s1, #[trigger] s1.comps[j][i] as int) by {
        if j < m {
            assert(s1.comps[j] == s0.comps[j]);
            assert(is_component(g, s0.comps[j]));
            assert(popped(s0, s0.comps[j][i] as int));
        } else {
            assert(comp[i] < n && s0.ons[comp[i] as int] && s0.idx[comp[i] as int] >= s0.idx[v as int]);
        }
    }
    assert forall|x: int| 0 <= x < n && #[trigger] popped(s1, x) implies exists|j: int, i: int|
        0 <= j < s1.comps.len() && 0 <= i < s1.comps[j].len() && #[trigger] s1.comps[j][i] == x by {
        if popped(s0, x) {
            let (j, i) = choose|j: int, i: int|
                0 <= j < s0.comps.len() && 0 <= i < s0.comps[j].len() && #[trigger] s0.comps[j][i] == x;
            assert(s1.comps[j] == s0.comps[j]);
            assert(s1.comps[j][i] == x);
        } else {
            assert(comp.contains(x as usize));
            let i = choose|i: int| 0 <= i < comp.len() && comp[i] == x as usize;
            assert(s1.comps[m][i] == x);
        }
    }
    assert forall|j1: int, i1: int, j2: int, i2: int|
        0 <= j1 < s1.comps.len() && 0 <= j2 < s1.comps.len() && 0 <= i1 < s1.comps[j1].len() && 0 <= i2
            < s1.comps[j2].len() && j1 != j2 implies #[trigger] s1.comps[j1][i1] != #[trigger] s1.comps[j2][i2] by {
        if j1 < m && j2 < m {
            assert(s1.comps[j1] == s0.comps[j1] && s1.comps[j2] == s0.comps[j2]);
            assert(s0.comps[j1][i1] != s0.comps[j2][i2]);
        } else if j1 < m {
            assert(s1.comps[j1] == s0.comps[j1]);
            assert(is_component(g, s0.comps[j1]));
            assert(popped(s0, s0.comps[j1][i1] as int));
            assert(s0.ons[comp[i2] as int]);
        } else {
            assert(s1.comps[j2] == s0.comps[j2]);
            assert(is_component(g, s0.comps[j2]));
            assert(popped(s0, s0.comps[j2][i2] as int));
            assert(s0.ons[comp[i1] as int]);
        }
    }
    assert(pairwise_disjoint(s1.comps));
    let f = s0.found.len() as int;
    // Every found cycle is a completed component that lies on a cycle.
    assert forall|j: int| 0 <= j < s1.found.len() implies #[trigger] s1.comps.contains(s1.found[j]) by {
        if j < f {
            assert(s1.found[j] == s0.found[j]);
            assert(s0.comps.contains(s0.found[j]));
            let jc = choose|jc: int| 0 <= jc < s0.comps.len() && s0.comps[jc] == s0.found[j];
            assert(s1.comps[jc] == s0.found[j]);
        } else {
            assert(s1.found[j] == comp);
        }
    }
    assert forall|j: int| 0 <= j < s1.found.len() implies #[trigger] on_cycle(g, s1.found[j][0] as int) by {
        if j < f {
            assert(s1.found[j] == s0.found[j]);
        } else {
            assert(s1.found[j] == comp);
        }
    }
    assert forall|j: int| 0 <= j < s1.comps.len() && #[trigger] on_cycle(g, s1.comps[j][0] as int) implies s1.found.contains(
        s1.comps[j],
    ) by {
        if j < m {
            assert(s1.comps[j] == s0.comps[j]);
            assert(s0.found.contains(s0.comps[j]));
            let jf = choose|jf: int| 0 <= jf < s0.found.len() && s0.found[jf] == s0.comps[j];
            assert(s1.found[jf] == s0.comps[j]);
        } else {
            assert(s1.found[f] == comp);
        }
    }
    // Members of earlier found cycles are completed, those of the new one
    // are not yet.
    assert forall|j: int, i: int| 0 <= j < f && 0 <= i < s0.found[j].len() implies popped(s0, #[trigger] s0.found[j][i] as int) by {
        assert(s0.comps.contains(s0.found[j]));
        let jc = choose|jc: int| 0 <= jc < s0.comps.len() && s0.comps[jc] == s0.found[j];
        assert(is_component(g, s0.comps[jc]));
        assert(popped(s0, s0.comps[jc][i] as int));
    }
    assert forall|j1: int, i1: int, j2: int, i2: int|
        0 <= j1 < s1.found.len() && 0 <= j2 < s1.found.len() && 0 <= i1 < s1.found[j1].len() && 0 <= i2
            < s1.found[j2].len() && j1 != j2 implies #[trigger] s1.found[j1][i1] != #[trigger] s1.found[j2][i2] by {
        if j1 < f && j2 < f {
            assert(s1.found[j1] == s0.found[j1] && s1.found[j2] == s0.found[j2]);
            assert(s0.found[j1][i1] != s0.found[j2][i2]);
        } else if j1 < f {
            assert(s1.found[j1] == s0.found[j1]);
            assert(popped(s0, s0.found[j1][i1] as int));
            assert(s1.found[j2] == comp);
            assert(s0.ons[comp[i2] as int]);
        } else {
            assert(s1.found[j2] == s0.found[j2]);
            assert(popped(s0, s0.found[j2][i2] as int));
            assert(s1.found[j1] == comp);
            assert(s0.ons[comp[i1] as int]);
        }
    }
}

/// Completing the component of the closing vertex keeps the invariant, and
/// what is recorded is that component.
pub proof fn lemma_pop(g: Seq<Seq<usize>>, s0: Search, s1: Search, v: usize, p: int)
    requires
        search_ok(g, s0),
        pop_step(g, s0, s1, v, p),
    ensures
        search_ok(g, s1),
{
    lemma_pop_facts(g, s0, s1, v, p);
    lemma_pop_component(g, s0, s1, v, p);
    lemma_pop_stacks(g, s0, s1, v, p);
    lemma_pop_low(g, s0, s1, v, p);
    lemma_pop_chain(g, s0, s1, v, p);
    lemma_pop_reach(g, s0, s1, v, p);
    lemma_pop_edges(g, s0, s1, v, p);
    lemma_pop_popped(g, s0, s1, v, p);
    lemma_pop_comps(g, s0, s1, v, p);
}


// ---------------------------------------------------------------------
// The end of the search
// ---------------------------------------------------------------------

/// Once every vertex is discovered and both stacks are empty, the found
/// cycles are the cycles of the graph.
pub proof fn lemma_done(g: Seq<Seq<usize>>, s: Search)
    requires
        search_ok(g, s),
        s.wrk.len() == 0,
        forall|x: int| 0 <= x < g.len() ==> visited(s, x),
    ensures
        cycles_of(g, s.found),
{
    let n = g.len() as int;
    reveal(work_ok);
    reveal(onstack_ok);
    reveal(comps_ok);
    reveal(stacked);
    assert forall|j: int| 0 <= j < s.found.len() implies #[trigger] is_component(g, s.found[j]) by {
        assert(s.comps.contains(s.found[j]));
        let jc = choose|jc: int| 0 <= jc < s.comps.len() && s.comps[jc] == s.found[j];
        assert(is_component(g, s.comps[jc]));
    }
    assert forall|x: int| 0 <= x < n && #[trigger] on_cycle(g, x) implies exists|j: int|
        0 <= j < s.found.len() && #[trigger] s.found[j].contains(x as usize) by {
        if s.ons[x] {
            assert(stacked(s.stk, x));
        }
        assert(popped(s, x));
        let (j, i) = choose|j: int, i: int|
            0 <= j < s.comps.len() && 0 <= i < s.comps[j].len() && #[trigger] s.comps[j][i] == x;
        let c = s.comps[j];
        assert(is_component(g, c));
        let r = c[0] as int;
        assert(c.contains(x as usize));
        assert(mates(g, r, x));
        if x != r {
            let b = lemma_first_edge(g, r, x);
            lemma_reach_trans(g, b, x, r);
            assert(edge(g, r, b) && reach(g, b, r));
        }
        assert(on_cycle(g, r));
        assert(s.found.contains(c));
        let jf = choose|jf: int| 0 <= jf < s.found.len() && s.found[jf] == c;
        assert(s.found[jf].contains(x as usize));
    }
}


/// A marked vertex sits somewhere on the component stack.
#[verifier::spinoff_prover]
pub proof fn lemma_stack_position(g: Seq<Seq<usize>>, s0: Search, v: int) -> (p: int)
    requires
        search_ok(g, s0),
        0 <= v < g.len(),
        s0.ons[v],
    ensures
        0 <= p < s0.stk.len(),
        s0.stk[p] == v as usize,
{
    reveal(onstack_ok);
    reveal(stacked);
    assert(stacked(s0.stk, v));
    choose|p: int| 0 <= p < s0.stk.len() && s0.stk[p] == v as usize
}

/// The vertices from the closing vertex's position up the component stack
/// are exactly the marked vertices numbered no earlier than it.
#[verifier::spinoff_prover]
#[verifier::rlimit(40)]
pub proof fn lemma_closing_members(g: Seq<Seq<usize>>, s0: Search, v: usize, p: int)
    requires
        search_ok(g, s0),
        closing(g, s0, v),
        0 <= p < s0.stk.len(),
        s0.stk[p] == v,
    ensures
        forall|x: int| 0 <= x < g.len() ==> (#[trigger] s0.stk.subrange(p, s0.stk.len() as int).contains(x as usize)
            <==> (s0.ons[x] && s0.idx[x] >= s0.idx[v as int])),
        forall|i: int| p <= i < s0.stk.len() ==> #[trigger] s0.stk[i] < g.len(),
{
    let n = g.len() as int;
    let comp = s0.stk.subrange(p, s0.stk.len() as int);
    lemma_top(g, s0, v, g[v as int].len() as usize);
    reveal(onstack_ok);
    reveal(stack_ok);
    reveal(stacked);
    assert forall|i: int| 0 <= i < s0.stk.len() implies (#[trigger] s0.idx[s0.stk[i] as int] >= s0.idx[v as int] <==> i >= p) by {
        assert(s0.stk[i] < n && s0.ons[s0.stk[i] as int]);
        if i < p {
            assert(s0.idx[s0.stk[i] as int] < s0.idx[s0.stk[p] as int]);
        } else if i > p {
            assert(s0.idx[s0.stk[p] as int] < s0.idx[s0.stk[i] as int]);
        }
    }
    assert forall|x: int| 0 <= x < n implies (#[trigger] comp.contains(x as usize) <==> (s0.ons[x] && s0.idx[x] >= s0.idx[v as int])) by {
        if comp.contains(x as usize) {
            let i = choose|i: int| 0 <= i < comp.len() && comp[i] == x as usize;
            assert(s0.stk[p + i] == x as usize);
            assert(s0.stk[p + i] < n && s0.ons[s0.stk[p + i] as int]);
            assert(s0.idx[s0.stk[p + i] as int] >= s0.idx[v as int]);
        }
        if s0.ons[x] && s0.idx[x] >= s0.idx[v as int] {
            assert(stacked(s0.stk, x));
            let i = choose|i: int| 0 <= i < s0.stk.len() && s0.stk[i] == x as usize;
            assert(s0.idx[s0.stk[i] as int] >= s0.idx[v as int]);
            assert(i >= p);
            assert(comp[i - p] == x as usize);
        }
    }
}

/// The depth-first stack's frames have distinct vertices.
pub proof fn lemma_parent_differs(g: Seq<Seq<usize>>, s0: Search, v: usize, pos: usize)
    requires
        search_ok(g, s0),
        s0.wrk.len() > 1,
        s0.wrk.last() == (v, pos),
    ensures
        s0.wrk[s0.wrk.len() - 2].0 != v,
        s0.wrk[s0.wrk.len() - 2].0 < g.len(),
{
    lemma_top(g, s0, v, pos);
    reveal(work_ok);
    assert(s0.wrk[s0.wrk.len() - 2].0 < g.len());
    assert(s0.idx[s0.wrk[s0.wrk.len() - 2].0 as int] < s0.idx[v as int]);
}


/// With the depth-first stack empty, so is the component stack.
pub proof fn lemma_idle(g: Seq<Seq<usize>>, s: Search)
    requires
        search_ok(g, s),
        s.wrk.len() == 0,
    ensures
        s.stk.len() == 0,
{
    reveal(work_ok);
}

} // verus!

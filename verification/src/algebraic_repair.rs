//! Algebraic data-structure self-repair: a binary search tree whose value
//! carries the BST invariant (strict ordering plus AVL-style height
//! balance), checked on demand and restored by rebuilding the canonical
//! balanced tree from every key that is still reachable.
//!
//! The repair never loses a distinct key: the key set of the tree is the
//! same before and after, and the rebuilt shape depends on that set alone.
use std::collections::BTreeSet;
use vstd::prelude::*;

verus! {

/// A node in the self-repairing binary search tree.
#[derive(Debug)]
pub struct BstNode {
    /// The stored value (the sort key of the BST).
    pub key: i64,
    /// Left subtree: keys strictly less than `key`.
    pub left: Option<Box<BstNode>>,
    /// Right subtree: keys strictly greater than `key`.
    pub right: Option<Box<BstNode>>,
}

/// An optional subtree.
pub type Link = Option<Box<BstNode>>;

/// The keys stored in a subtree.
pub open spec fn link_keys(t: Link) -> Set<i64>
    decreases t,
{
    match t {
        None => Set::empty(),
        Some(n) => link_keys(n.left).union(link_keys(n.right)).insert(n.key),
    }
}

/// The number of nodes of a subtree.
pub open spec fn link_size(t: Link) -> nat
    decreases t,
{
    match t {
        None => 0,
        Some(n) => link_size(n.left) + link_size(n.right) + 1,
    }
}

/// The height of a subtree: the number of nodes on its longest root-leaf
/// path (0 for the empty subtree).
pub open spec fn link_height(t: Link) -> nat
    decreases t,
{
    match t {
        None => 0,
        Some(n) => {
            let lh = link_height(n.left);
            let rh = link_height(n.right);
            1 + if lh >= rh { lh } else { rh }
        },
    }
}

/// `k` lies strictly above the optional lower bound.
pub open spec fn above(lo: Option<i64>, k: i64) -> bool {
    match lo {
        Some(l) => l < k,
        None => true,
    }
}

/// `k` lies strictly below the optional upper bound.
pub open spec fn below(k: i64, hi: Option<i64>) -> bool {
    match hi {
        Some(h) => k < h,
        None => true,
    }
}

/// Every key lies strictly between the optional bounds, recursively: left
/// subtrees hold smaller keys, right subtrees larger ones.
pub open spec fn link_ordered(t: Link, lo: Option<i64>, hi: Option<i64>) -> bool
    decreases t,
{
    match t {
        None => true,
        Some(n) => {
            &&& above(lo, n.key)
            &&& below(n.key, hi)
            &&& link_ordered(n.left, lo, Some(n.key))
            &&& link_ordered(n.right, Some(n.key), hi)
        },
    }
}

/// The heights of the two children differ by at most one, at every node.
pub open spec fn link_balanced(t: Link) -> bool
    decreases t,
{
    match t {
        None => true,
        Some(n) => {
            let lh = link_height(n.left);
            let rh = link_height(n.right);
            &&& (if lh >= rh { lh - rh } else { rh - lh }) <= 1
            &&& link_balanced(n.left)
            &&& link_balanced(n.right)
        },
    }
}

/// The key reached by following left children from `t`, starting from the
/// fallback `acc` (the key of the node whose left child `t` is).
pub open spec fn leftmost_from(t: Link, acc: Option<i64>) -> Option<i64>
    decreases t,
{
    match t {
        None => acc,
        Some(n) => leftmost_from(n.left, Some(n.key)),
    }
}

/// The key reached by following right children from `t`.
pub open spec fn rightmost_from(t: Link, acc: Option<i64>) -> Option<i64>
    decreases t,
{
    match t {
        None => acc,
        Some(n) => rightmost_from(n.right, Some(n.key)),
    }
}

/// `s` is strictly increasing.
pub open spec fn strictly_increasing(s: Seq<i64>) -> bool {
    forall|i: int, j: int| 0 <= i < j < s.len() ==> s[i] < s[j]
}

/// The canonical balanced tree over the sorted keys `s[lo..hi]`: the median
/// `s[lo + (hi - lo) / 2]` is the root and each half is built the same way.
pub open spec fn spec_build(s: Seq<i64>, lo: int, hi: int) -> Link
    decreases hi - lo,
{
    if lo >= hi {
        None
    } else {
        let mid = lo + (hi - lo) / 2;
        Some(
            Box::new(
                BstNode { key: s[mid], left: spec_build(s, lo, mid), right: spec_build(s, mid + 1, hi) },
            ),
        )
    }
}

/// The sorted sequence of a finite set of keys.
pub open spec fn sorted_keys(keys: Set<i64>) -> Seq<i64> {
    choose|s: Seq<i64>| strictly_increasing(s) && s.to_set() == keys
}

/// The canonical balanced tree holding exactly `keys`.
pub open spec fn canonical_tree(keys: Set<i64>) -> Link {
    let s = sorted_keys(keys);
    spec_build(s, 0, s.len() as int)
}

/// The height the canonical builder gives to `n` keys.
pub open spec fn build_height(n: nat) -> nat
    decreases n,
{
    if n == 0 {
        0
    } else {
        let a = build_height(n / 2);
        let b = build_height((n - 1 - n / 2) as nat);
        1 + if a >= b { a } else { b }
    }
}


/// The subtree after inserting `key` by descending the search path: a new
/// leaf is hung where the path ends, and nothing changes when the path
/// meets a node holding `key`.
pub open spec fn link_insert(t: Link, key: i64) -> Link
    decreases t,
{
    match t {
        None => Some(Box::new(BstNode { key, left: None, right: None })),
        Some(n) => if key < n.key {
            Some(Box::new(BstNode { key: n.key, left: link_insert(n.left, key), right: n.right }))
        } else if key > n.key {
            Some(Box::new(BstNode { key: n.key, left: n.left, right: link_insert(n.right, key) }))
        } else {
            t
        },
    }
}

/// The search path for `key` meets a node holding `key`.
pub open spec fn on_search_path(t: Link, key: i64) -> bool
    decreases t,
{
    match t {
        None => false,
        Some(n) => if key < n.key {
            on_search_path(n.left, key)
        } else if key > n.key {
            on_search_path(n.right, key)
        } else {
            true
        },
    }
}

/// The tree that the repair routine leaves behind: an already valid tree is
/// kept as it is, any other one is replaced by the canonical balanced tree
/// over its keys.
pub open spec fn repaired(t: Link) -> Link {
    if link_ordered(t, None, None) && link_balanced(t) {
        t
    } else {
        canonical_tree(link_keys(t))
    }
}

/// The key set of a subtree is finite.
pub proof fn lemma_keys_finite(t: Link)
    ensures
        link_keys(t).finite(),
    decreases t,
{
    if let Some(n) = t {
        lemma_keys_finite(n.left);
        lemma_keys_finite(n.right);
    }
}

/// A subtree is never taller than it has nodes.
pub proof fn lemma_height_le_size(t: Link)
    ensures
        link_height(t) <= link_size(t),
    decreases t,
{
    if let Some(n) = t {
        lemma_height_le_size(n.left);
        lemma_height_le_size(n.right);
    }
}

/// Every key of an ordered subtree lies strictly within its bounds.
pub proof fn lemma_ordered_bounds(t: Link, lo: Option<i64>, hi: Option<i64>)
    requires
        link_ordered(t, lo, hi),
    ensures
        forall|k: i64| #[trigger] link_keys(t).contains(k) ==> above(lo, k) && below(k, hi),
    decreases t,
{
    if let Some(n) = t {
        lemma_ordered_bounds(n.left, lo, Some(n.key));
        lemma_ordered_bounds(n.right, Some(n.key), hi);
        assert forall|k: i64| #[trigger] link_keys(t).contains(k) implies above(lo, k) && below(k, hi) by {
            if link_keys(n.left).contains(k) {
                assert(below(k, Some(n.key)));
            } else if link_keys(n.right).contains(k) {
                assert(above(Some(n.key), k));
            }
        }
    }
}

/// In an ordered subtree every node holds a distinct key, so the node count
/// is the number of keys.
pub proof fn lemma_ordered_size_is_key_count(t: Link, lo: Option<i64>, hi: Option<i64>)
    requires
        link_ordered(t, lo, hi),
    ensures
        link_size(t) == link_keys(t).len(),
    decreases t,
{
    if let Some(n) = t {
        lemma_ordered_size_is_key_count(n.left, lo, Some(n.key));
        lemma_ordered_size_is_key_count(n.right, Some(n.key), hi);
        lemma_ordered_bounds(n.left, lo, Some(n.key));
        lemma_ordered_bounds(n.right, Some(n.key), hi);
        lemma_keys_finite(n.left);
        lemma_keys_finite(n.right);
        let kl = link_keys(n.left);
        let kr = link_keys(n.right);
        assert(kl.disjoint(kr));
        vstd::set_lib::lemma_set_disjoint_lens(kl, kr);
        assert(kl + kr == kl.union(kr));
        assert(!kl.union(kr).contains(n.key));
    }
}

/// Loosening the bounds of an ordered subtree keeps it ordered.
pub proof fn lemma_ordered_weaken(t: Link, lo: Option<i64>, hi: Option<i64>, lo2: Option<i64>, hi2: Option<i64>)
    requires
        link_ordered(t, lo, hi),
        forall|k: i64| above(lo, k) ==> #[trigger] above(lo2, k),
        forall|k: i64| below(k, hi) ==> #[trigger] below(k, hi2),
    ensures
        link_ordered(t, lo2, hi2),
    decreases t,
{
    if let Some(n) = t {
        lemma_ordered_weaken(n.left, lo, Some(n.key), lo2, Some(n.key));
        lemma_ordered_weaken(n.right, Some(n.key), hi, Some(n.key), hi2);
    }
}

/// One more key never lowers the canonical height, and raises it by at most
/// one.
pub proof fn lemma_build_height_step(n: nat)
    ensures
        build_height(n) <= build_height(n + 1) <= build_height(n) + 1,
    decreases n,
{
    if n == 0 {
        assert(build_height(1) == 1) by {
            assert(build_height(0) == 0);
        }
    } else if n % 2 == 0 {
        let m = n / 2;
        lemma_build_height_step((m - 1) as nat);
        assert((n + 1) / 2 == m);
        assert(n - 1 - n / 2 == m - 1);
        assert(n + 1 - 1 - (n + 1) / 2 == m);
    } else {
        let m = n / 2;
        lemma_build_height_step(m);
        assert((n + 1) / 2 == m + 1);
        assert(n - 1 - n / 2 == m);
        assert(n + 1 - 1 - (n + 1) / 2 == m);
    }
}

/// The canonical height is monotone in the number of keys.
pub proof fn lemma_build_height_mono(a: nat, b: nat)
    requires
        a <= b,
    ensures
        build_height(a) <= build_height(b),
    decreases b - a,
{
    if a < b {
        lemma_build_height_step(a);
        lemma_build_height_mono(a + 1, b);
    }
}

/// The keys of the canonical tree over `s[lo..hi]` are exactly those
/// entries.
pub proof fn lemma_build_keys(s: Seq<i64>, lo: int, hi: int)
    requires
        0 <= lo <= hi <= s.len(),
    ensures
        forall|k: i64| #[trigger]
            link_keys(spec_build(s, lo, hi)).contains(k) <==> exists|i: int|
                lo <= i < hi && s[i] == k,
    decreases hi - lo,
{
    if lo < hi {
        let mid = lo + (hi - lo) / 2;
        let l = spec_build(s, lo, mid);
        let r = spec_build(s, mid + 1, hi);
        lemma_build_keys(s, lo, mid);
        lemma_build_keys(s, mid + 1, hi);
        assert(link_keys(spec_build(s, lo, hi)) == link_keys(l).union(link_keys(r)).insert(s[mid]));
        assert forall|k: i64| #[trigger]
            link_keys(spec_build(s, lo, hi)).contains(k) <==> exists|i: int|
                lo <= i < hi && s[i] == k by {
            if exists|i: int| lo <= i < hi && s[i] == k {
                let i = choose|i: int| lo <= i < hi && s[i] == k;
                if i < mid {
                    assert(link_keys(l).contains(k));
                } else if i > mid {
                    assert(link_keys(r).contains(k));
                }
            }
            if link_keys(spec_build(s, lo, hi)).contains(k) {
                if link_keys(l).contains(k) {
                    let i = choose|i: int| lo <= i < mid && s[i] == k;
                    assert(lo <= i < hi && s[i] == k);
                } else if link_keys(r).contains(k) {
                    let i = choose|i: int| mid + 1 <= i < hi && s[i] == k;
                    assert(lo <= i < hi && s[i] == k);
                } else {
                    assert(lo <= mid < hi && s[mid] == k);
                }
            }
        }
    }
}

/// The canonical tree over `s[lo..hi]` has `hi - lo` nodes and the canonical
/// height of that many keys.
pub proof fn lemma_build_shape(s: Seq<i64>, lo: int, hi: int)
    requires
        0 <= lo <= hi <= s.len(),
    ensures
        link_size(spec_build(s, lo, hi)) == hi - lo,
        link_height(spec_build(s, lo, hi)) == build_height((hi - lo) as nat),
        link_balanced(spec_build(s, lo, hi)),
    decreases hi - lo,
{
    if lo < hi {
        let mid = lo + (hi - lo) / 2;
        let n = (hi - lo) as nat;
        lemma_build_shape(s, lo, mid);
        lemma_build_shape(s, mid + 1, hi);
        assert(mid - lo == n / 2);
        assert(hi - (mid + 1) == n - 1 - n / 2);
        let a = (n / 2) as nat;
        let b = (n - 1 - n / 2) as nat;
        assert(b <= a <= b + 1);
        lemma_build_height_mono(b, a);
        if a == b + 1 {
            lemma_build_height_step(b);
        }
    }
}

/// The canonical tree over strictly increasing keys is ordered within any
/// bounds that enclose those keys.
pub proof fn lemma_build_ordered(s: Seq<i64>, lo: int, hi: int, lb: Option<i64>, ub: Option<i64>)
    requires
        0 <= lo <= hi <= s.len(),
        strictly_increasing(s),
        forall|i: int| lo <= i < hi ==> above(lb, #[trigger] s[i]),
        forall|i: int| lo <= i < hi ==> below(#[trigger] s[i], ub),
    ensures
        link_ordered(spec_build(s, lo, hi), lb, ub),
    decreases hi - lo,
{
    if lo < hi {
        let mid = lo + (hi - lo) / 2;
        lemma_build_ordered(s, lo, mid, lb, Some(s[mid]));
        lemma_build_ordered(s, mid + 1, hi, Some(s[mid]), ub);
    }
}

/// Two strictly increasing sequences with the same elements are equal.
pub proof fn lemma_sorted_unique(s1: Seq<i64>, s2: Seq<i64>)
    requires
        strictly_increasing(s1),
        strictly_increasing(s2),
        s1.to_set() == s2.to_set(),
    ensures
        s1 == s2,
    decreases s1.len() + s2.len(),
{
    if s1.len() == 0 {
        if s2.len() > 0 {
            assert(s2.to_set().contains(s2[0]));
        }
        assert(s1 =~= s2);
    } else {
        assert(s1.to_set().contains(s1[0]));
        assert(s2.len() > 0);
        assert(s2.to_set().contains(s2[0]));
        let i = choose|i: int| 0 <= i < s2.len() && s2[i] == s1[0];
        let j = choose|j: int| 0 <= j < s1.len() && s1[j] == s2[0];
        assert(s1[0] == s2[0]) by {
            if i > 0 {
                assert(s2[0] < s2[i]);
            }
            if j > 0 {
                assert(s1[0] < s1[j]);
            }
        }
        let t1 = s1.drop_first();
        let t2 = s2.drop_first();
        assert forall|x: i64| t1.to_set().contains(x) <==> t2.to_set().contains(x) by {
            if t1.to_set().contains(x) {
                let a = choose|a: int| 0 <= a < t1.len() && t1[a] == x;
                assert(s1[a + 1] == x);
                assert(s1.to_set().contains(x));
                let b = choose|b: int| 0 <= b < s2.len() && s2[b] == x;
                assert(b != 0);
                assert(t2[b - 1] == x);
            }
            if t2.to_set().contains(x) {
                let a = choose|a: int| 0 <= a < t2.len() && t2[a] == x;
                assert(s2[a + 1] == x);
                assert(s2.to_set().contains(x));
                let b = choose|b: int| 0 <= b < s1.len() && s1[b] == x;
                assert(b != 0);
                assert(t1[b - 1] == x);
            }
        }
        assert(t1.to_set() =~= t2.to_set());
        lemma_sorted_unique(t1, t2);
        assert(s1 =~= s2) by {
            assert forall|k: int| 0 <= k < s1.len() implies s1[k] == s2[k] by {
                if k > 0 {
                    assert(s1[k] == t1[k - 1]);
                    assert(s2[k] == t2[k - 1]);
                }
            }
        }
    }
}

/// The leftmost key of a non-empty ordered subtree is its smallest key.
pub proof fn lemma_leftmost_is_min(t: Link, lo: Option<i64>, hi: Option<i64>, acc: Option<i64>)
    requires
        link_ordered(t, lo, hi),
        t is Some,
    ensures
        leftmost_from(t, acc) is Some,
        link_keys(t).contains(leftmost_from(t, acc).unwrap()),
        forall|k: i64| #[trigger] link_keys(t).contains(k) ==> leftmost_from(t, acc).unwrap() <= k,
    decreases t,
{
    let n = t.unwrap();
    lemma_ordered_bounds(n.left, lo, Some(n.key));
    lemma_ordered_bounds(n.right, Some(n.key), hi);
    if n.left is Some {
        lemma_leftmost_is_min(n.left, lo, Some(n.key), Some(n.key));
    }
    let m = leftmost_from(t, acc).unwrap();
    assert(m == leftmost_from(n.left, Some(n.key)).unwrap());
    if n.left is Some {
        assert(link_keys(n.left).contains(m));
        assert(below(m, Some(n.key)));
    } else {
        assert(m == n.key);
    }
    assert forall|k: i64| #[trigger] link_keys(t).contains(k) implies m <= k by {
        if link_keys(n.left).contains(k) {
            assert(m <= k);
        } else if link_keys(n.right).contains(k) {
            assert(above(Some(n.key), k));
            if n.left is Some {
                assert(link_keys(n.left).contains(m));
                assert(below(m, Some(n.key)));
            }
        }
    }
}

/// The rightmost key of a non-empty ordered subtree is its largest key.
pub proof fn lemma_rightmost_is_max(t: Link, lo: Option<i64>, hi: Option<i64>, acc: Option<i64>)
    requires
        link_ordered(t, lo, hi),
        t is Some,
    ensures
        rightmost_from(t, acc) is Some,
        link_keys(t).contains(rightmost_from(t, acc).unwrap()),
        forall|k: i64| #[trigger] link_keys(t).contains(k) ==> k <= rightmost_from(t, acc).unwrap(),
    decreases t,
{
    let n = t.unwrap();
    lemma_ordered_bounds(n.left, lo, Some(n.key));
    lemma_ordered_bounds(n.right, Some(n.key), hi);
    if n.right is Some {
        lemma_rightmost_is_max(n.right, Some(n.key), hi, Some(n.key));
    }
    let m = rightmost_from(t, acc).unwrap();
    assert(m == rightmost_from(n.right, Some(n.key)).unwrap());
    if n.right is Some {
        assert(link_keys(n.right).contains(m));
        assert(above(Some(n.key), m));
    } else {
        assert(m == n.key);
    }
    assert forall|k: i64| #[trigger] link_keys(t).contains(k) implies k <= m by {
        if link_keys(n.right).contains(k) {
            assert(k <= m);
        } else if link_keys(n.left).contains(k) {
            assert(below(k, Some(n.key)));
            if n.right is Some {
                assert(link_keys(n.right).contains(m));
                assert(above(Some(n.key), m));
            }
        }
    }
}

/// Following left children from a node always ends at some key.
pub proof fn lemma_leftmost_some(t: Link, k: i64)
    ensures
        leftmost_from(t, Some(k)) is Some,
    decreases t,
{
    if let Some(n) = t {
        lemma_leftmost_some(n.left, n.key);
    }
}

/// Following right children from a node always ends at some key.
pub proof fn lemma_rightmost_some(t: Link, k: i64)
    ensures
        rightmost_from(t, Some(k)) is Some,
    decreases t,
{
    if let Some(n) = t {
        lemma_rightmost_some(n.right, n.key);
    }
}

/// The keys that a set iterator yields in increasing order are strictly
/// increasing integers.
pub proof fn lemma_increasing_keys(s: Seq<&i64>)
    requires
        vstd::std_specs::btree::increasing_seq(s),
    ensures
        strictly_increasing(s.unref()),
{
    assert(vstd::laws_cmp::obeys_cmp::<i64>());
    assert(vstd::laws_cmp::obeys_cmp::<&i64>());
    assert forall|i: int, j: int| 0 <= i < j < s.unref().len() implies s.unref()[i] < s.unref()[j] by {
        assert(vstd::std_specs::cmp::OrdSpec::cmp_spec(&s[i], &s[j]) is Less);
    }
}

/// A subtree is empty exactly when it has no keys.
pub proof fn lemma_empty_iff_no_keys(t: Link)
    ensures
        (t is None) <==> link_keys(t) == Set::<i64>::empty(),
{
    if let Some(n) = t {
        assert(link_keys(t).contains(n.key));
    }
}

/// Descending the search path adds `key` to the key set, adds one node
/// exactly when the path does not already meet `key`, and a path that meets
/// `key` only passes through stored keys.
pub proof fn lemma_insert_keys(t: Link, key: i64)
    ensures
        link_keys(link_insert(t, key)) == link_keys(t).insert(key),
        link_size(link_insert(t, key)) == link_size(t) + if on_search_path(t, key) {
            0nat
        } else {
            1nat
        },
        on_search_path(t, key) ==> link_keys(t).contains(key),
        on_search_path(t, key) ==> link_insert(t, key) == t,
    decreases t,
{
    if let Some(n) = t {
        lemma_insert_keys(n.left, key);
        lemma_insert_keys(n.right, key);
        assert(link_keys(link_insert(t, key)) =~= link_keys(t).insert(key));
    } else {
        assert(link_keys(link_insert(t, key)) =~= link_keys(t).insert(key));
    }
}

/// On an ordered subtree the search path meets `key` exactly when `key` is
/// stored, and inserting a key within the bounds keeps the subtree ordered.
pub proof fn lemma_insert_ordered(t: Link, key: i64, lo: Option<i64>, hi: Option<i64>)
    requires
        link_ordered(t, lo, hi),
        above(lo, key),
        below(key, hi),
    ensures
        link_ordered(link_insert(t, key), lo, hi),
        on_search_path(t, key) == link_keys(t).contains(key),
    decreases t,
{
    if let Some(n) = t {
        lemma_ordered_bounds(n.left, lo, Some(n.key));
        lemma_ordered_bounds(n.right, Some(n.key), hi);
        if key < n.key {
            lemma_insert_ordered(n.left, key, lo, Some(n.key));
            if link_keys(n.right).contains(key) {
                assert(above(Some(n.key), key));
            }
            let m = BstNode { key: n.key, left: link_insert(n.left, key), right: n.right };
            assert(link_insert(t, key) == Some(Box::new(m)));
            assert(link_ordered(Some(Box::new(m)), lo, hi));
        } else if key > n.key {
            lemma_insert_ordered(n.right, key, Some(n.key), hi);
            if link_keys(n.left).contains(key) {
                assert(below(key, Some(n.key)));
            }
            let m = BstNode { key: n.key, left: n.left, right: link_insert(n.right, key) };
            assert(link_insert(t, key) == Some(Box::new(m)));
            assert(link_ordered(Some(Box::new(m)), lo, hi));
        }
    } else {
        let m = BstNode { key, left: None, right: None };
        assert(link_insert(t, key) == Some(Box::new(m)));
        assert(link_ordered(m.left, lo, Some(key)));
        assert(link_ordered(m.right, Some(key), hi));
        assert(link_ordered(Some(Box::new(m)), lo, hi));
    }
}

/// The sorted sequence `s` with `x` merged into its place.
pub open spec fn sorted_insert(s: Seq<i64>, x: i64) -> Seq<i64>
    decreases s.len(),
{
    if s.len() == 0 {
        seq![x]
    } else if x < s[0] {
        seq![x] + s
    } else if x == s[0] {
        s
    } else {
        seq![s[0]] + sorted_insert(s.drop_first(), x)
    }
}

/// Merging a key into a strictly increasing sequence keeps it strictly
/// increasing and adds the key to its elements.
pub proof fn lemma_sorted_insert(s: Seq<i64>, x: i64)
    requires
        strictly_increasing(s),
    ensures
        strictly_increasing(sorted_insert(s, x)),
        sorted_insert(s, x).to_set() == s.to_set().insert(x),
    decreases s.len(),
{
    let r = sorted_insert(s, x);
    if s.len() == 0 {
        assert(r.to_set() =~= s.to_set().insert(x)) by {
            assert(r[0] == x);
        }
    } else if x < s[0] {
        assert forall|i: int, j: int| 0 <= i < j < r.len() implies r[i] < r[j] by {
            if i > 0 {
                assert(r[i] == s[i - 1] && r[j] == s[j - 1]);
            } else {
                assert(r[j] == s[j - 1]);
                assert(s[0] <= s[j - 1]) by {
                    if j - 1 > 0 {
                        assert(s[0] < s[j - 1]);
                    }
                }
            }
        }
        assert forall|k: i64| r.to_set().contains(k) <==> s.to_set().insert(x).contains(k) by {
            if r.to_set().contains(k) {
                let i = choose|i: int| 0 <= i < r.len() && r[i] == k;
                if i > 0 {
                    assert(s[i - 1] == k);
                }
            }
            if s.to_set().contains(k) {
                let i = choose|i: int| 0 <= i < s.len() && s[i] == k;
                assert(r[i + 1] == k);
            }
            if k == x {
                assert(r[0] == k);
            }
        }
        assert(r.to_set() =~= s.to_set().insert(x));
    } else if x == s[0] {
        assert(s.to_set().contains(x));
        assert(r.to_set() =~= s.to_set().insert(x));
    } else {
        let t = s.drop_first();
        assert(strictly_increasing(t));
        lemma_sorted_insert(t, x);
        let rt = sorted_insert(t, x);
        assert(r == seq![s[0]] + rt);
        assert forall|k: i64| rt.to_set().contains(k) implies s[0] < k by {
            assert(t.to_set().insert(x).contains(k));
            if k != x {
                let i = choose|i: int| 0 <= i < t.len() && t[i] == k;
                assert(s[i + 1] == k);
            }
        }
        assert forall|i: int, j: int| 0 <= i < j < r.len() implies r[i] < r[j] by {
            if i > 0 {
                assert(r[i] == rt[i - 1] && r[j] == rt[j - 1]);
            } else {
                assert(r[j] == rt[j - 1]);
                assert(rt.to_set().contains(rt[j - 1]));
            }
        }
        assert forall|k: i64| r.to_set().contains(k) <==> s.to_set().insert(x).contains(k) by {
            if r.to_set().contains(k) {
                let i = choose|i: int| 0 <= i < r.len() && r[i] == k;
                if i > 0 {
                    assert(rt[i - 1] == k);
                    assert(rt.to_set().contains(k));
                    if k != x {
                        assert(t.to_set().contains(k));
                        let m = choose|m: int| 0 <= m < t.len() && t[m] == k;
                        assert(s[m + 1] == k);
                    }
                } else {
                    assert(s[0] == k);
                }
            }
            if s.to_set().insert(x).contains(k) {
                if k == s[0] {
                    assert(r[0] == k);
                } else {
                    if k != x {
                        let i = choose|i: int| 0 <= i < s.len() && s[i] == k;
                        assert(i > 0);
                        assert(t[i - 1] == k);
                        assert(t.to_set().contains(k));
                    }
                    assert(rt.to_set().contains(k));
                    let m = choose|m: int| 0 <= m < rt.len() && rt[m] == k;
                    assert(r[m + 1] == k);
                }
            }
        }
        assert(r.to_set() =~= s.to_set().insert(x));
    }
}

/// Every finite set of keys has a sorted sequence.
pub proof fn lemma_sorted_exists(keys: Set<i64>)
    requires
        keys.finite(),
    ensures
        exists|s: Seq<i64>| strictly_increasing(s) && s.to_set() == keys,
    decreases keys.len(),
{
    if keys.len() == 0 {
        let s = Seq::<i64>::empty();
        assert(keys =~= Set::empty());
        assert(s.to_set() =~= keys);
        assert(strictly_increasing(s) && s.to_set() == keys);
    } else {
        let x = keys.choose();
        assert(keys.contains(x));
        lemma_sorted_exists(keys.remove(x));
        let s = choose|s: Seq<i64>| strictly_increasing(s) && s.to_set() == keys.remove(x);
        lemma_sorted_insert(s, x);
        assert(keys.remove(x).insert(x) =~= keys);
        let r = sorted_insert(s, x);
        assert(strictly_increasing(r) && r.to_set() == keys);
    }
}

/// The sorted sequence of a finite key set is the one strictly increasing
/// sequence with those elements.
pub proof fn lemma_sorted_keys(keys: Set<i64>, s: Seq<i64>)
    requires
        strictly_increasing(s),
        s.to_set() == keys,
    ensures
        sorted_keys(keys) == s,
{
    let t = sorted_keys(keys);
    assert(strictly_increasing(t) && t.to_set() == keys);
    lemma_sorted_unique(t, s);
}

/// A strictly increasing sequence has as many entries as distinct elements.
pub proof fn lemma_sorted_len(s: Seq<i64>)
    requires
        strictly_increasing(s),
    ensures
        s.to_set().len() == s.len(),
        s.to_set().finite(),
{
    assert(s.no_duplicates()) by {
        assert forall|i: int, j: int| 0 <= i < s.len() && 0 <= j < s.len() && i != j implies s[i]
            != s[j] by {
            if i < j {
                assert(s[i] < s[j]);
            } else {
                assert(s[j] < s[i]);
            }
        }
    }
    s.unique_seq_to_set();
    vstd::seq_lib::seq_to_set_is_finite(s);
}

/// The canonical tree over a finite key set is ordered, balanced, holds
/// exactly those keys, and has one node per key.
pub proof fn law_canonical_tree_valid(keys: Set<i64>)
    requires
        keys.finite(),
    ensures
        link_ordered(canonical_tree(keys), None, None),
        link_balanced(canonical_tree(keys)),
        link_keys(canonical_tree(keys)) == keys,
        link_size(canonical_tree(keys)) == keys.len(),
{
    lemma_sorted_exists(keys);
    let s = sorted_keys(keys);
    assert(strictly_increasing(s) && s.to_set() == keys);
    let n = s.len() as int;
    lemma_build_ordered(s, 0, n, None, None);
    lemma_build_shape(s, 0, n);
    lemma_build_keys(s, 0, n);
    lemma_sorted_len(s);
    assert(link_keys(canonical_tree(keys)) =~= keys) by {
        assert forall|k: i64| link_keys(canonical_tree(keys)).contains(k) <==> keys.contains(k) by {
            if keys.contains(k) {
                assert(s.to_set().contains(k));
                let i = choose|i: int| 0 <= i < s.len() && s[i] == k;
                assert(0 <= i < n && s[i] == k);
            }
            if link_keys(canonical_tree(keys)).contains(k) {
                let i = choose|i: int| 0 <= i < n && s[i] == k;
                assert(s.to_set().contains(s[i]));
            }
        }
    }
}

/// Repair always leaves a valid tree with exactly the keys it found, and a
/// second repair changes nothing.
pub proof fn law_repair_idempotent(t: Link)
    ensures
        link_ordered(repaired(t), None, None),
        link_balanced(repaired(t)),
        link_keys(repaired(t)) == link_keys(t),
        repaired(repaired(t)) == repaired(t),
{
    lemma_keys_finite(t);
    law_canonical_tree_valid(link_keys(t));
}

/// Recovery is deterministic: two corrupted trees holding the same keys are
/// repaired into the same tree.
pub proof fn law_repair_deterministic(a: Link, b: Link)
    requires
        link_keys(a) == link_keys(b),
        !(link_ordered(a, None, None) && link_balanced(a)),
        !(link_ordered(b, None, None) && link_balanced(b)),
    ensures
        repaired(a) == repaired(b),
{
}

impl BstNode {
    /// A leaf.
    fn leaf(key: i64) -> (n: BstNode)
        ensures
            n.key == key,
            n.left is None,
            n.right is None,
    {
        BstNode { key, left: None, right: None }
    }

    /// The height (number of nodes on the longest root-leaf path) of this
    /// subtree.
    fn height(&self) -> (h: u64)
        requires
            link_size(Some(Box::new(*self))) <= usize::MAX,
        ensures
            h == link_height(Some(Box::new(*self))),
        decreases self,
    {
        proof {
            lemma_height_le_size(Some(Box::new(*self)));
        }
        let lh = match &self.left {
            Some(l) => l.height(),
            None => 0,
        };
        assert(lh == link_height(self.left));
        let rh = match &self.right {
            Some(r) => r.height(),
            None => 0,
        };
        assert(rh == link_height(self.right));
        assert(link_height(Some(Box::new(*self))) == 1 + if link_height(self.left) >= link_height(self.right) { link_height(self.left) } else { link_height(self.right) });
        1 + if lh >= rh {
            lh
        } else {
            rh
        }
    }

    /// Recursive BST-validity check with the allowed key interval passed
    /// down from ancestors.
    fn is_valid_ordered(&self, min: Option<i64>, max: Option<i64>) -> (b: bool)
        ensures
            b == link_ordered(Some(Box::new(*self)), min, max),
        decreases self,
    {
        assert(link_ordered(Some(Box::new(*self)), min, max) == (above(min, self.key) && below(
            self.key,
            max,
        ) && link_ordered(self.left, min, Some(self.key)) && link_ordered(
            self.right,
            Some(self.key),
            max,
        )));
        if let Some(min) = min {
            if self.key <= min {
                return false;
            }
        }
        if let Some(max) = max {
            if self.key >= max {
                return false;
            }
        }
        let left_ok = match &self.left {
            Some(l) => l.is_valid_ordered(min, Some(self.key)),
            None => true,
        };
        if !left_ok {
            return false;
        }
        match &self.right {
            Some(r) => r.is_valid_ordered(Some(self.key), max),
            None => true,
        }
    }

    /// Whether the height balance invariant `|height(left) - height(right)|
    /// <= 1` holds at every node.
    fn is_balanced(&self) -> (b: bool)
        requires
            link_size(Some(Box::new(*self))) <= usize::MAX,
        ensures
            b == link_balanced(Some(Box::new(*self))),
        decreases self,
    {
        let lh = match &self.left {
            Some(l) => l.height(),
            None => 0,
        };
        let rh = match &self.right {
            Some(r) => r.height(),
            None => 0,
        };
        assert(lh == link_height(self.left) && rh == link_height(self.right));
        assert(link_balanced(Some(Box::new(*self))) == ((if lh >= rh {
            lh - rh
        } else {
            rh - lh
        }) <= 1 && link_balanced(self.left) && link_balanced(self.right)));
        let diff = if lh >= rh {
            lh - rh
        } else {
            rh - lh
        };
        if diff > 1 {
            return false;
        }
        let left_ok = match &self.left {
            Some(l) => l.is_balanced(),
            None => true,
        };
        if !left_ok {
            return false;
        }
        match &self.right {
            Some(r) => r.is_balanced(),
            None => true,
        }
    }

    /// Pre-order DFS collecting every reachable key.
    fn dfs(values: &mut BTreeSet<i64>, node: &BstNode)
        ensures
            final(values)@ == old(values)@.union(link_keys(Some(Box::new(*node)))),
        decreases node,
    {
        values.insert(node.key);
        match &node.left {
            Some(l) => BstNode::dfs(values, l),
            None => {},
        }
        match &node.right {
            Some(r) => BstNode::dfs(values, r),
            None => {},
        }
        proof {
            assert(link_keys(Some(Box::new(*node))) == link_keys(node.left).union(
                link_keys(node.right),
            ).insert(node.key));
            assert(values@ =~= old(values)@.union(link_keys(Some(Box::new(*node)))));
        }
    }
}

/// A self-repairing binary search tree with a strict, balanced invariant.
/// The root is open to the holder of the tree: a corrupted structure is
/// exactly what `is_valid` detects and `repair` restores.
#[derive(Debug)]
pub struct BinarySearchTree {
    pub root: Option<Box<BstNode>>,
}

/// The result of running the algebraic repair routine.
#[derive(Debug, Clone, Copy, PartialEq, Eq, Structural)]
pub struct RepairReport {
    /// Whether the tree was already valid (nothing needed repairing).
    pub was_intact: bool,
    /// How many distinct keys were recovered and preserved by the repair.
    pub keys_preserved: usize,
}

impl BinarySearchTree {
    /// The keys reachable in the tree.
    pub closed spec fn keys(&self) -> Set<i64> {
        link_keys(self.root)
    }

    /// The number of reachable nodes.
    pub closed spec fn size(&self) -> nat {
        link_size(self.root)
    }

    /// The strict BST ordering holds.
    pub closed spec fn ordered(&self) -> bool {
        link_ordered(self.root, None, None)
    }

    /// The full refined-type invariant: ordered and height balanced.
    pub closed spec fn valid(&self) -> bool {
        link_ordered(self.root, None, None) && link_balanced(self.root)
    }

    /// The root subtree.
    pub closed spec fn shape(&self) -> Link {
        self.root
    }

    /// The tree's keys, size, ordering and validity are those of its shape:
    /// the keys reachable from the root, the nodes counted, the strict
    /// ordering, and the ordering together with height balance.
    pub proof fn lemma_shape_determines(&self)
        ensures
            self.keys() == link_keys(self.shape()),
            self.size() == link_size(self.shape()),
            self.ordered() == link_ordered(self.shape(), None, None),
            self.valid() == (link_ordered(self.shape(), None, None) && link_balanced(self.shape())),
    {
    }

    /// An empty tree.
    pub fn new() -> (t: Self)
        ensures
            t.shape() is None,
            t.keys() == Set::<i64>::empty(),
            t.size() == 0,
            t.valid(),
    {
        BinarySearchTree { root: None }
    }

    /// Inserts `key` along its search path, maintaining the BST ordering
    /// invariant; balance is left to the repair path. Returns `true` if the
    /// key was new (a node was actually added).
    pub fn insert(&mut self, key: i64) -> (inserted: bool)
        ensures
            final(self).shape() == link_insert(old(self).shape(), key),
            inserted == !on_search_path(old(self).shape(), key),
            final(self).keys() == old(self).keys().insert(key),
            final(self).size() == old(self).size() + if inserted {
                1nat
            } else {
                0nat
            },
            !inserted ==> final(self).shape() == old(self).shape() && old(self).keys().contains(key),
            old(self).ordered() ==> final(self).ordered() && inserted == !old(self).keys().contains(
                key,
            ),
    {
        proof {
            lemma_insert_keys(self.root, key);
            if link_ordered(self.root, None, None) {
                lemma_insert_ordered(self.root, key, None, None);
            }
        }
        Self::insert_rec(&mut self.root, key)
    }

    fn insert_rec(node: &mut Link, key: i64) -> (inserted: bool)
        ensures
            *final(node) == link_insert(*old(node), key),
            inserted == !on_search_path(*old(node), key),
        decreases *old(node),
    {
        match node.take() {
            None => {
                *node = Some(Box::new(BstNode::leaf(key)));
                true
            },
            Some(mut n) => {
                if key < n.key {
                    let r = Self::insert_rec(&mut n.left, key);
                    *node = Some(n);
                    r
                } else if key > n.key {
                    let r = Self::insert_rec(&mut n.right, key);
                    *node = Some(n);
                    r
                } else {
                    *node = Some(n);
                    false
                }
            },
        }
    }

    /// Whether the tree satisfies the full refined-type invariant: strict
    /// BST ordering and AVL-style height balance.
    pub fn is_valid(&self) -> (b: bool)
        requires
            self.size() <= usize::MAX,
        ensures
            b == self.valid(),
    {
        match &self.root {
            None => true,
            Some(root) => root.is_valid_ordered(None, None) && root.is_balanced(),
        }
    }

    /// Adds the number of nodes of `node` to `acc`.
    fn walk(node: &Link, acc: &mut usize)
        requires
            *old(acc) + link_size(*node) <= usize::MAX,
        ensures
            *final(acc) == *old(acc) + link_size(*node),
        decreases *node,
    {
        if let Some(n) = node {
            *acc = *acc + 1;
            Self::walk(&n.left, acc);
            Self::walk(&n.right, acc);
        }
    }

    /// The number of nodes currently reachable.
    pub fn len(&self) -> (n: usize)
        requires
            self.size() <= usize::MAX,
        ensures
            n == self.size(),
    {
        let mut total: usize = 0;
        Self::walk(&self.root, &mut total);
        total
    }

    /// `true` iff the tree has no nodes.
    pub fn is_empty(&self) -> (b: bool)
        ensures
            b == (self.keys() == Set::<i64>::empty()),
            b == (self.size() == 0),
    {
        proof {
            lemma_empty_iff_no_keys(self.root);
        }
        self.root.is_none()
    }

    /// The canonical balanced tree over the sorted keys `keys[lo..hi]`, with
    /// the median of each sub-range as its root.
    fn build_balanced(keys: &Vec<i64>, lo: usize, hi: usize) -> (t: Link)
        requires
            lo <= hi <= keys.len(),
        ensures
            t == spec_build(keys@, lo as int, hi as int),
        decreases hi - lo,
    {
        if lo >= hi {
            return None;
        }
        let mid = lo + (hi - lo) / 2;
        let left = Self::build_balanced(keys, lo, mid);
        let right = Self::build_balanced(keys, mid + 1, hi);
        Some(Box::new(BstNode { key: keys[mid], left, right }))
    }

    /// The repair routine: a valid tree is reported intact and left alone;
    /// otherwise every reachable key is extracted and the tree is replaced by
    /// the canonical balanced tree over those keys. No distinct key is lost.
    pub fn repair(&mut self) -> (report: RepairReport)
        requires
            old(self).size() <= usize::MAX,
        ensures
            report.was_intact == old(self).valid(),
            final(self).shape() == repaired(old(self).shape()),
            report.keys_preserved == old(self).keys().len(),
            final(self).keys() == old(self).keys(),
            final(self).valid(),
            report.was_intact ==> final(self).shape() == old(self).shape(),
            !report.was_intact ==> final(self).shape() == canonical_tree(old(self).keys()),
    {
        proof {
            law_repair_idempotent(self.root);
        }
        if self.is_valid() {
            proof {
                lemma_ordered_size_is_key_count(self.root, None, None);
            }
            return RepairReport { was_intact: true, keys_preserved: self.len() };
        }
        let mut keys: BTreeSet<i64> = BTreeSet::new();
        if let Some(root) = &self.root {
            BstNode::dfs(&mut keys, root);
        }
        assert(keys@ =~= link_keys(self.root));
        let mut sorted: Vec<i64> = Vec::new();
        let ghost s = vstd::std_specs::iter::IteratorSpec::remaining(&vstd::std_specs::btree::spec_btree_keys_iter(&keys));
        for k in it: keys.iter()
            invariant
                it.seq() == s,
                sorted@ == s.take(it.index() as int).unref(),
        {
            sorted.push(*k);
            assert(sorted@ =~= s.take(it.index() + 1).unref());
        }
        proof {
            assert(sorted@ =~= s.unref());
            assert(s.unref().to_set() == keys@);
            lemma_increasing_keys(s);
            lemma_sorted_keys(link_keys(self.root), sorted@);
            lemma_sorted_len(sorted@);
        }
        let n = sorted.len();
        self.root = Self::build_balanced(&sorted, 0, n);
        RepairReport { was_intact: false, keys_preserved: n }
    }

    /// The smallest key in the tree (the leftmost one), `None` if empty.
    pub fn min(&self) -> (r: Option<i64>)
        ensures
            r == leftmost_from(self.shape(), None),
            r is None <==> self.keys() == Set::<i64>::empty(),
            self.ordered() && r is Some ==> self.keys().contains(r.unwrap()) && forall|k: i64|
                #[trigger] self.keys().contains(k) ==> r.unwrap() <= k,
    {
        let mut node: &Link = &self.root;
        let mut value: Option<i64> = None;
        loop
            invariant_except_break
                leftmost_from(*node, value) == leftmost_from(self.root, None),
                value is None ==> node == &self.root,
            ensures
                value == leftmost_from(self.root, None),
                value is None ==> self.root is None,
            decreases *node,
        {
            match node {
                Some(n) => {
                    value = Some(n.key);
                    node = &n.left;
                },
                None => {
                    break ;
                },
            }
        }
        proof {
            lemma_empty_iff_no_keys(self.root);
            if self.root is Some {
                if link_ordered(self.root, None, None) {
                    lemma_leftmost_is_min(self.root, None, None, None);
                }
                let rn = self.root.unwrap();
                assert(leftmost_from(self.root, None) == leftmost_from(rn.left, Some(rn.key)));
                lemma_leftmost_some(rn.left, rn.key);
            }
        }
        value
    }

    /// The largest key in the tree (the rightmost one), `None` if empty.
    pub fn max(&self) -> (r: Option<i64>)
        ensures
            r == rightmost_from(self.shape(), None),
            r is None <==> self.keys() == Set::<i64>::empty(),
            self.ordered() && r is Some ==> self.keys().contains(r.unwrap()) && forall|k: i64|
                #[trigger] self.keys().contains(k) ==> k <= r.unwrap(),
    {
        let mut node: &Link = &self.root;
        let mut value: Option<i64> = None;
        loop
            invariant_except_break
                rightmost_from(*node, value) == rightmost_from(self.root, None),
                value is None ==> node == &self.root,
            ensures
                value == rightmost_from(self.root, None),
                value is None ==> self.root is None,
            decreases *node,
        {
            match node {
                Some(n) => {
                    value = Some(n.key);
                    node = &n.right;
                },
                None => {
                    break ;
                },
            }
        }
        proof {
            lemma_empty_iff_no_keys(self.root);
            if self.root is Some {
                if link_ordered(self.root, None, None) {
                    lemma_rightmost_is_max(self.root, None, None, None);
                }
                let rn = self.root.unwrap();
                assert(rightmost_from(self.root, None) == rightmost_from(rn.right, Some(rn.key)));
                lemma_rightmost_some(rn.right, rn.key);
            }
        }
        value
    }
}

impl Default for BinarySearchTree {
    fn default() -> (t: Self)
        ensures
            t.shape() is None,
    {
        BinarySearchTree::new()
    }
}

} // verus!

//! Structural validation of `supervisor` blocks: within one `{ .. }` block
//! no child may be declared twice and no configuration key may be set
//! twice; each child's own block is checked the same way, independently.
use vstd::prelude::*;

verus! {

/// An item of a `supervisor` or `child` block.
pub enum SupervisorItem {
    /// `child Name { .. }`; `body` is absent when the block did not parse.
    Child { name: Option<String>, body: Option<Vec<SupervisorItem>> },
    /// `key: value`.
    Entry { name: Option<String> },
}

/// A structural defect, with the repeated name.
#[derive(Debug, PartialEq, Eq)]
pub enum StructureDiagnostic {
    DuplicateChild(String),
    DuplicateEntry(String),
}

impl StructureDiagnostic {
    /// The message shown for the defect.
    pub fn message(&self) -> (m: String)
        ensures
            m@ == match *self {
                StructureDiagnostic::DuplicateChild(n) => "a child named `"@ + n@
                    + "` is already declared in this supervisor"@,
                StructureDiagnostic::DuplicateEntry(n) => "the key `"@ + n@
                    + "` is already set in this block"@,
            },
    {
        match self {
            StructureDiagnostic::DuplicateChild(n) => {
                crate::diagnostic_messages::duplicate_supervisor_child(n.as_str())
            },
            StructureDiagnostic::DuplicateEntry(n) => {
                crate::diagnostic_messages::duplicate_supervisor_entry(n.as_str())
            },
        }
    }
}

/// A diagnostic by its text: whether it is about a child, and the name.
pub open spec fn diag_view(d: StructureDiagnostic) -> (bool, Seq<char>) {
    match d {
        StructureDiagnostic::DuplicateChild(n) => (true, n@),
        StructureDiagnostic::DuplicateEntry(n) => (false, n@),
    }
}

/// The diagnostics by their texts.
pub open spec fn diag_views(ds: Seq<StructureDiagnostic>) -> Seq<(bool, Seq<char>)> {
    ds.map_values(|d: StructureDiagnostic| diag_view(d))
}

/// The name an item declares, with whether it is a child, if it has one.
pub open spec fn declared(item: SupervisorItem) -> Option<(bool, Seq<char>)> {
    match item {
        SupervisorItem::Child { name: Some(n), .. } => Some((true, n@)),
        SupervisorItem::Entry { name: Some(n) } => Some((false, n@)),
        _ => None,
    }
}

/// Whether one of `items[0..j]` declares the same kind of item under the
/// same name.
pub open spec fn declared_before(items: Seq<SupervisorItem>, j: int, d: (bool, Seq<char>)) -> bool {
    exists|i: int| 0 <= i < j && #[trigger] declared(items[i]) == Some(d)
}

/// The diagnostics of the first `k` items of a block, in source order: a
/// repeated name is reported at its repetition, and a child's own block is
/// reported right after the child.
pub open spec fn block_diags(items: Seq<SupervisorItem>, k: int) -> Seq<(bool, Seq<char>)>
    decreases items, k,
{
    if k <= 0 || k > items.len() {
        Seq::empty()
    } else {
        let prev = block_diags(items, k - 1);
        let item = items[k - 1];
        let own = match declared(item) {
            Some(d) => if declared_before(items, k - 1, d) {
                seq![d]
            } else {
                Seq::empty()
            },
            None => Seq::empty(),
        };
        let nested = match item {
            SupervisorItem::Child { body: Some(b), .. } => {
                proof {
                    assert(decreases_to!(items => items[k - 1]));
                }
                block_diags(b@, b@.len() as int)
            },
            _ => Seq::empty(),
        };
        prev + own + nested
    }
}

/// The names of the items of kind `child` among `items[0..k]`, each
/// once, in the order of their first declaration.
pub open spec fn seen_names(items: Seq<SupervisorItem>, k: int, child: bool) -> Seq<Seq<char>>
    decreases k,
{
    if k <= 0 || k > items.len() {
        Seq::empty()
    } else {
        let prev = seen_names(items, k - 1, child);
        match declared(items[k - 1]) {
            Some(d) => if d.0 == child && !prev.contains(d.1) {
                prev.push(d.1)
            } else {
                prev
            },
            None => prev,
        }
    }
}

/// The names seen so far are exactly those declared before.
pub proof fn lemma_seen_names(items: Seq<SupervisorItem>, k: int, child: bool, n: Seq<char>)
    requires
        0 <= k <= items.len(),
    ensures
        seen_names(items, k, child).contains(n) <==> declared_before(items, k, (child, n)),
    decreases k,
{
    if k > 0 {
        lemma_seen_names(items, k - 1, child, n);
        let prev = seen_names(items, k - 1, child);
        let cur = seen_names(items, k, child);
        let d = declared(items[k - 1]);
        // One more item declares `n` exactly when the earlier ones or the
        // last one does.
        if declared_before(items, k, (child, n)) {
            let w = choose|w: int| 0 <= w < k && #[trigger] declared(items[w]) == Some((child, n));
            if w < k - 1 {
                assert(declared_before(items, k - 1, (child, n)));
            }
        }
        if declared_before(items, k - 1, (child, n)) {
            let w = choose|w: int| 0 <= w < k - 1 && #[trigger] declared(items[w]) == Some((child, n));
            assert(declared(items[w]) == Some((child, n)));
            assert(declared_before(items, k, (child, n)));
        }
        if d == Some((child, n)) {
            assert(declared(items[k - 1]) == Some((child, n)));
            assert(declared_before(items, k, (child, n)));
        }
        let pushed = match d {
            Some(e) => e.0 == child && !prev.contains(e.1),
            None => false,
        };
        if pushed {
            let m = d.unwrap().1;
            assert(cur == prev.push(m));
            if cur.contains(n) {
                let j = choose|j: int| 0 <= j < cur.len() && cur[j] == n;
                if j < prev.len() {
                    assert(prev[j] == n);
                    assert(prev.contains(n));
                } else {
                    assert(m == n);
                }
            }
            if prev.contains(n) {
                let j = choose|j: int| 0 <= j < prev.len() && prev[j] == n;
                assert(cur[j] == n);
            }
            if m == n {
                assert(cur[prev.len() as int] == n);
            }
        } else {
            assert(cur == prev);
        }
    }
}

/// The texts of a list of names.
pub open spec fn name_texts(v: Seq<String>) -> Seq<Seq<char>> {
    v.map_values(|s: String| s@)
}

/// Whether `names` holds `name`.
fn holds_name(names: &Vec<String>, name: &String) -> (b: bool)
    ensures
        b == name_texts(names@).contains(name@),
{
    let mut i: usize = 0;
    while i < names.len()
        invariant
            0 <= i <= names@.len(),
            forall|j: int| 0 <= j < i ==> names@[j]@ != name@,
        decreases names@.len() - i,
    {
        if crate::text::str_eq(names[i].as_str(), name.as_str()) {
            assert(name_texts(names@)[i as int] == name@);
            return true;
        }
        i = i + 1;
    }
    proof {
        if name_texts(names@).contains(name@) {
            let k = choose|k: int| 0 <= k < name_texts(names@).len() && name_texts(names@)[k] == name@;
            assert(names@[k]@ == name@);
        }
    }
    false
}

/// Checks one block and, recursively, the blocks of its children,
/// appending what it finds to `out`.
fn validate_item_list(list: &Vec<SupervisorItem>, out: &mut Vec<StructureDiagnostic>)
    ensures
        diag_views(final(out)@) == diag_views(old(out)@) + block_diags(list@, list@.len() as int),
    decreases list@,
{
    let mut seen_children: Vec<String> = Vec::new();
    let mut seen_entries: Vec<String> = Vec::new();
    let mut i: usize = 0;
    let ghost start = diag_views(out@);
    while i < list.len()
        invariant
            0 <= i <= list@.len(),
            diag_views(out@) == start + block_diags(list@, i as int),
            name_texts(seen_children@) == seen_names(list@, i as int, true),
            name_texts(seen_entries@) == seen_names(list@, i as int, false),
        decreases list@.len() - i,
    {
        let ghost before = diag_views(out@);
        let ghost item = list@[i as int];
        match &list[i] {
            SupervisorItem::Child { name, body } => {
                let ghost own: Seq<(bool, Seq<char>)> = Seq::empty();
                match name {
                    Some(n) => {
                        proof {
                            lemma_seen_names(list@, i as int, true, n@);
                        }
                        if holds_name(&seen_children, n) {
                            out.push(StructureDiagnostic::DuplicateChild(n.clone()));
                            proof {
                                own = seq![(true, n@)];
                                assert(diag_views(out@) =~= before + own);
                            }
                        } else {
                            let copy = n.clone();
                            seen_children.push(copy);
                            proof {
                                assert(name_texts(seen_children@) =~= seen_names(
                                    list@,
                                    i + 1,
                                    true,
                                ));
                            }
                        }
                    },
                    None => {},
                }
                let ghost mid = diag_views(out@);
                match body {
                    Some(b) => {
                        proof {
                            assert(decreases_to!(list@ => list@[i as int]));
                        }
                        validate_item_list(b, out);
                    },
                    None => {},
                }
                proof {
                    assert(diag_views(out@) =~= start + block_diags(list@, i + 1));
                }
            },
            SupervisorItem::Entry { name } => {
                match name {
                    Some(n) => {
                        proof {
                            lemma_seen_names(list@, i as int, false, n@);
                        }
                        if holds_name(&seen_entries, n) {
                            out.push(StructureDiagnostic::DuplicateEntry(n.clone()));
                            proof {
                                assert(diag_views(out@) =~= before + seq![(false, n@)]);
                            }
                        } else {
                            let copy = n.clone();
                            seen_entries.push(copy);
                            proof {
                                assert(name_texts(seen_entries@) =~= seen_names(
                                    list@,
                                    i + 1,
                                    false,
                                ));
                            }
                        }
                    },
                    None => {},
                }
                proof {
                    assert(diag_views(out@) =~= start + block_diags(list@, i + 1));
                }
            },
        }
        i = i + 1;
    }
}

/// The structural diagnostics of the `supervisor` blocks of a file, in
/// order; a block that did not parse is `None` and is skipped.
pub fn supervisor_diagnostics(blocks: &Vec<Option<Vec<SupervisorItem>>>) -> (r: Vec<
    StructureDiagnostic,
>)
    ensures
        diag_views(r@) == all_block_diags(blocks@, blocks@.len() as int),
{
    let mut out: Vec<StructureDiagnostic> = Vec::new();
    let mut i: usize = 0;
    while i < blocks.len()
        invariant
            0 <= i <= blocks@.len(),
            diag_views(out@) == all_block_diags(blocks@, i as int),
        decreases blocks@.len() - i,
    {
        match &blocks[i] {
            Some(list) => validate_item_list(list, &mut out),
            None => {},
        }
        i = i + 1;
    }
    out
}

/// The diagnostics of the first `k` supervisor blocks, in order.
pub open spec fn all_block_diags(blocks: Seq<Option<Vec<SupervisorItem>>>, k: int) -> Seq<
    (bool, Seq<char>),
>
    decreases k,
{
    if k <= 0 || k > blocks.len() {
        Seq::empty()
    } else {
        all_block_diags(blocks, k - 1) + match blocks[k - 1] {
            Some(list) => block_diags(list@, list@.len() as int),
            None => Seq::empty(),
        }
    }
}

} // verus!

//! Lowering and static validation of `@heal(...)` healing contracts.
//!
//! A contract names the fault classes it guards (`on:`), the ordered
//! recovery strategies (`strategies:`), and optionally a postcondition.
//! Validation turns every silently inert contract into a diagnostic: an
//! unknown fault class or strategy (with the nearest known name as a
//! suggestion), a missing or empty strategy list, a repeated strategy, and a
//! strategy whose feasibility obligation the guarded function cannot
//! discharge.
//!
//! The attributes of the guarded function come in as the parser left them
//! (`heal_attributes::Attribute`); the `@heal` attribute is found among
//! them and its labelled arguments are read here. Which functions of the
//! module an alternate may name, and how each relates to the guarded
//! function, is given by the caller.
use vstd::prelude::*;
use crate::heal_attributes::{
    alternate_problem_text, capabilities_of, fault_class_read, items_of, list_elements, named_arg,
    named_from, parse_fault_class, parse_strategy, read_capabilities, resolve_alternate,
    strategy_read, AlternateMatch, ArgElement, Attribute, Written,
};

verus! {

/// A fault class a guarded site may encounter.
#[derive(Debug, PartialEq, Eq)]
pub enum FaultClass {
    NullDereference,
    OutOfBounds,
    Timeout,
    ConnectionRefused,
    OutOfMemory,
    MemoryLeak,
    AccessViolation,
    ArithmeticFault,
    /// A user-defined class, written explicitly as `Custom("name")`.
    Custom(String),
}

/// The built-in fault class names, in declaration order.
pub open spec fn builtin_fault_names() -> Seq<Seq<char>> {
    seq![
        "NullDereference"@,
        "OutOfBounds"@,
        "Timeout"@,
        "ConnectionRefused"@,
        "OutOfMemory"@,
        "MemoryLeak"@,
        "AccessViolation"@,
        "ArithmeticFault"@,
    ]
}

/// The built-in fault class a bare name denotes.
pub open spec fn fault_from_name(name: Seq<char>) -> Option<FaultClass> {
    if name == "NullDereference"@ {
        Some(FaultClass::NullDereference)
    } else if name == "OutOfBounds"@ {
        Some(FaultClass::OutOfBounds)
    } else if name == "Timeout"@ {
        Some(FaultClass::Timeout)
    } else if name == "ConnectionRefused"@ {
        Some(FaultClass::ConnectionRefused)
    } else if name == "OutOfMemory"@ {
        Some(FaultClass::OutOfMemory)
    } else if name == "MemoryLeak"@ {
        Some(FaultClass::MemoryLeak)
    } else if name == "AccessViolation"@ {
        Some(FaultClass::AccessViolation)
    } else if name == "ArithmeticFault"@ {
        Some(FaultClass::ArithmeticFault)
    } else {
        None
    }
}

impl FaultClass {
    /// The built-in fault class named `name`, if it is one.
    pub fn from_name(name: &str) -> (c: Option<Self>)
        ensures
            c == fault_from_name(name@),
    {
        if crate::text::str_eq(name, "NullDereference") {
            Some(FaultClass::NullDereference)
        } else if crate::text::str_eq(name, "OutOfBounds") {
            Some(FaultClass::OutOfBounds)
        } else if crate::text::str_eq(name, "Timeout") {
            Some(FaultClass::Timeout)
        } else if crate::text::str_eq(name, "ConnectionRefused") {
            Some(FaultClass::ConnectionRefused)
        } else if crate::text::str_eq(name, "OutOfMemory") {
            Some(FaultClass::OutOfMemory)
        } else if crate::text::str_eq(name, "MemoryLeak") {
            Some(FaultClass::MemoryLeak)
        } else if crate::text::str_eq(name, "AccessViolation") {
            Some(FaultClass::AccessViolation)
        } else if crate::text::str_eq(name, "ArithmeticFault") {
            Some(FaultClass::ArithmeticFault)
        } else {
            None
        }
    }

    /// The built-in class names, in declaration order.
    pub fn builtin_names() -> (v: Vec<&'static str>)
        ensures
            v@.map_values(|s: &'static str| s@) == builtin_fault_names(),
    {
        let v = vec![
            "NullDereference",
            "OutOfBounds",
            "Timeout",
            "ConnectionRefused",
            "OutOfMemory",
            "MemoryLeak",
            "AccessViolation",
            "ArithmeticFault",
        ];
        assert(v@.map_values(|s: &'static str| s@) =~= builtin_fault_names());
        v
    }
}

/// A recovery strategy.
#[derive(Debug, PartialEq, Eq)]
pub enum Strategy {
    /// Return the return type's zero value, or the written value.
    ReturnDefault(Option<i64>),
    ReturnCached,
    RetryWithBackoff(u32),
    SubstituteAlternate(String),
    DegradeGracefully,
    IsolateAndRestart,
    PropagateToParent,
}

/// What a strategy needs from its guarded function in order to be usable.
#[derive(Debug, Clone, Copy, PartialEq, Eq, Structural)]
pub enum Requirement {
    /// Nothing beyond being written down.
    Nothing,
    /// The return type must have a default value, so `Never` is rejected.
    DefaultableReturn,
    /// Needs `@memoizable`.
    Memoizable,
    /// Needs `@idempotent(n)` with `n` at least the retry count.
    Idempotent(u32),
    /// Needs `@snapshot`.
    Snapshot,
    /// Needs a `supervisor` block to escalate into.
    Supervisor,
    /// Needs the named alternate to resolve to a signature-compatible
    /// function.
    ResolvableAlternate,
}

/// The strategy names accepted in a `strategies:` list.
pub open spec fn strategy_names() -> Seq<Seq<char>> {
    seq![
        "ReturnDefault"@,
        "ReturnCached"@,
        "RetryWithBackoff"@,
        "SubstituteAlternate"@,
        "DegradeGracefully"@,
        "IsolateAndRestart"@,
        "PropagateToParent"@,
    ]
}

/// The feasibility obligation of each strategy.
pub open spec fn requirement_of(s: Strategy) -> Requirement {
    match s {
        Strategy::ReturnDefault(Some(_)) => Requirement::Nothing,
        Strategy::ReturnDefault(None) => Requirement::DefaultableReturn,
        Strategy::ReturnCached => Requirement::Memoizable,
        Strategy::RetryWithBackoff(n) => Requirement::Idempotent(n),
        Strategy::SubstituteAlternate(_) => Requirement::ResolvableAlternate,
        Strategy::DegradeGracefully => Requirement::Nothing,
        Strategy::IsolateAndRestart => Requirement::Snapshot,
        Strategy::PropagateToParent => Requirement::Supervisor,
    }
}

/// The name a strategy is written with.
pub open spec fn strategy_name_of(s: Strategy) -> &'static str {
    match s {
        Strategy::ReturnDefault(_) => "ReturnDefault",
        Strategy::ReturnCached => "ReturnCached",
        Strategy::RetryWithBackoff(_) => "RetryWithBackoff",
        Strategy::SubstituteAlternate(_) => "SubstituteAlternate",
        Strategy::DegradeGracefully => "DegradeGracefully",
        Strategy::IsolateAndRestart => "IsolateAndRestart",
        Strategy::PropagateToParent => "PropagateToParent",
    }
}

impl Strategy {
    /// The strategy names accepted in a `strategies:` list.
    pub fn names() -> (v: Vec<&'static str>)
        ensures
            v@.map_values(|s: &'static str| s@) == strategy_names(),
    {
        let v = vec![
            "ReturnDefault",
            "ReturnCached",
            "RetryWithBackoff",
            "SubstituteAlternate",
            "DegradeGracefully",
            "IsolateAndRestart",
            "PropagateToParent",
        ];
        assert(v@.map_values(|s: &'static str| s@) =~= strategy_names());
        v
    }

    /// This strategy's feasibility obligation.
    pub fn feasibility_requirement(&self) -> (r: Requirement)
        ensures
            r == requirement_of(*self),
    {
        match self {
            Strategy::ReturnDefault(Some(_)) => Requirement::Nothing,
            Strategy::ReturnDefault(None) => Requirement::DefaultableReturn,
            Strategy::ReturnCached => Requirement::Memoizable,
            Strategy::RetryWithBackoff(n) => Requirement::Idempotent(*n),
            Strategy::SubstituteAlternate(_) => Requirement::ResolvableAlternate,
            Strategy::DegradeGracefully => Requirement::Nothing,
            Strategy::IsolateAndRestart => Requirement::Snapshot,
            Strategy::PropagateToParent => Requirement::Supervisor,
        }
    }

    /// The name as written, for diagnostics.
    pub fn name(&self) -> (n: &'static str)
        ensures
            n == strategy_name_of(*self),
    {
        match self {
            Strategy::ReturnDefault(_) => "ReturnDefault",
            Strategy::ReturnCached => "ReturnCached",
            Strategy::RetryWithBackoff(_) => "RetryWithBackoff",
            Strategy::SubstituteAlternate(_) => "SubstituteAlternate",
            Strategy::DegradeGracefully => "DegradeGracefully",
            Strategy::IsolateAndRestart => "IsolateAndRestart",
            Strategy::PropagateToParent => "PropagateToParent",
        }
    }
}

impl Clone for FaultClass {
    fn clone(&self) -> (c: Self)
        ensures
            c == *self,
    {
        match self {
            FaultClass::NullDereference => FaultClass::NullDereference,
            FaultClass::OutOfBounds => FaultClass::OutOfBounds,
            FaultClass::Timeout => FaultClass::Timeout,
            FaultClass::ConnectionRefused => FaultClass::ConnectionRefused,
            FaultClass::OutOfMemory => FaultClass::OutOfMemory,
            FaultClass::MemoryLeak => FaultClass::MemoryLeak,
            FaultClass::AccessViolation => FaultClass::AccessViolation,
            FaultClass::ArithmeticFault => FaultClass::ArithmeticFault,
            FaultClass::Custom(name) => FaultClass::Custom(name.clone()),
        }
    }
}

impl Clone for Strategy {
    fn clone(&self) -> (c: Self)
        ensures
            c == *self,
    {
        match self {
            Strategy::ReturnDefault(v) => Strategy::ReturnDefault(*v),
            Strategy::ReturnCached => Strategy::ReturnCached,
            Strategy::RetryWithBackoff(n) => Strategy::RetryWithBackoff(*n),
            Strategy::SubstituteAlternate(name) => Strategy::SubstituteAlternate(name.clone()),
            Strategy::DegradeGracefully => Strategy::DegradeGracefully,
            Strategy::IsolateAndRestart => Strategy::IsolateAndRestart,
            Strategy::PropagateToParent => Strategy::PropagateToParent,
        }
    }
}

/// A `@heal(...)` contract, resolved from source and validated.
#[derive(Debug, PartialEq, Eq)]
pub struct HealContract {
    /// The fault classes guarded; empty means every class.
    pub fault_classes: Vec<FaultClass>,
    /// The ordered recovery strategies, preferred first.
    pub strategies: Vec<Strategy>,
    /// Whether a `postcondition:` was written.
    pub has_postcondition: bool,
}

impl Default for HealContract {
    fn default() -> (c: Self)
        ensures
            c.fault_classes@.len() == 0,
            c.strategies@.len() == 0,
            !c.has_postcondition,
    {
        HealContract { fault_classes: Vec::new(), strategies: Vec::new(), has_postcondition: false }
    }
}

/// The capabilities a guarded function declares through companion
/// attributes.
#[derive(Debug, Clone, Copy, PartialEq, Eq, Structural)]
pub struct Capabilities {
    /// `@memoizable` is present.
    pub memoizable: bool,
    /// `@snapshot` is present.
    pub snapshot: bool,
    /// The bound of `@idempotent(n)`; zero when not declared.
    pub idempotent_up_to: u32,
}

// ---------------------------------------------------------------------
// Edit distance and suggestions
// ---------------------------------------------------------------------

/// The smallest of three integers.
pub open spec fn min3(x: int, y: int, z: int) -> int {
    if x <= y && x <= z {
        x
    } else if y <= z {
        y
    } else {
        z
    }
}

/// The Levenshtein distance between two character sequences.
pub open spec fn lev(a: Seq<char>, b: Seq<char>) -> nat
    decreases a.len() + b.len(),
{
    if a.len() == 0 {
        b.len()
    } else if b.len() == 0 {
        a.len()
    } else {
        let sub = lev(a.drop_last(), b.drop_last()) + if a.last() == b.last() {
            0int
        } else {
            1int
        };
        min3(sub, lev(a.drop_last(), b) + 1int, lev(a, b.drop_last()) + 1int) as nat
    }
}

/// The case-folded form `str::to_lowercase` gives of a text.
pub uninterp spec fn lowercased(s: Seq<char>) -> Seq<char>;

/// The text `str::trim` leaves of a text.
pub uninterp spec fn trimmed(s: Seq<char>) -> Seq<char>;

/// The ASCII lower case of a character: `A`..`Z` become `a`..`z`, every
/// other character stays.
pub open spec fn ascii_lower(c: char) -> char {
    if 'A' <= c <= 'Z' {
        ((c as u32) + 32) as char
    } else {
        c
    }
}

/// Lower-cases `s` with `str::to_lowercase`. Its result, full Unicode case
/// mapping, depends on `s` alone and is named `lowercased`; of it the
/// contract states only what the Unicode mapping gives an ASCII text:
/// `A`..`Z` become `a`..`z` and every other character stays, as
/// `str::to_ascii_lowercase` does.
#[verifier::external_body]
fn lowercase(s: &str) -> (r: String)
    ensures
        r@ == lowercased(s@),
        (forall|i: int| 0 <= i < s@.len() ==> (s@[i] as u32) < 128) ==> r@ == s@.map_values(
            |c: char| ascii_lower(c),
        ),
{
    s.to_lowercase()
}

/// Strips leading and trailing white space with `str::trim`. Its result
/// depends on `s` alone and is named `trimmed`; nothing more of it is
/// stated.
#[verifier::external_body]
fn trim(s: &str) -> (r: &str)
    ensures
        r@ == trimmed(s@),
{
    s.trim()
}

/// The characters of `s`, in order.
fn chars_of(s: &str) -> (v: Vec<char>)
    ensures
        v@ == s@,
{
    let mut v: Vec<char> = Vec::new();
    for c in it: s.chars()
        invariant
            v@ == it.seq().take(it.index() as int),
    {
        v.push(c);
        assert(v@ =~= it.seq().take(it.index() + 1));
    }
    v
}

/// The case-insensitive edit distance of two texts (texts as long as the
/// machine's largest length count as infinitely far apart).
pub open spec fn text_distance(a: Seq<char>, b: Seq<char>) -> nat {
    if lowercased(a).len() < usize::MAX && lowercased(b).len() < usize::MAX {
        lev(lowercased(a), lowercased(b))
    } else {
        usize::MAX as nat
    }
}

/// The edit distance does not depend on the order of its arguments.
pub proof fn lemma_lev_symmetric(a: Seq<char>, b: Seq<char>)
    ensures
        lev(a, b) == lev(b, a),
    decreases a.len() + b.len(),
{
    if a.len() > 0 && b.len() > 0 {
        lemma_lev_symmetric(a.drop_last(), b.drop_last());
        lemma_lev_symmetric(a.drop_last(), b);
        lemma_lev_symmetric(a, b.drop_last());
    }
}

/// Two sequences are at distance zero exactly when they are equal.
pub proof fn lemma_lev_zero(a: Seq<char>, b: Seq<char>)
    ensures
        lev(a, b) == 0 <==> a == b,
    decreases a.len() + b.len(),
{
    if a.len() > 0 && b.len() > 0 {
        lemma_lev_zero(a.drop_last(), b.drop_last());
        if a == b {
            assert(a.drop_last() == b.drop_last());
        }
        if lev(a, b) == 0 {
            assert(a.drop_last() == b.drop_last());
            assert(a =~= a.drop_last().push(a.last()));
            assert(b =~= b.drop_last().push(b.last()));
        }
    } else if a.len() == 0 && b.len() == 0 {
        assert(a =~= b);
    }
}

/// The case-insensitive edit distance is symmetric.
pub proof fn law_edit_distance_symmetric(a: Seq<char>, b: Seq<char>)
    ensures
        text_distance(a, b) == text_distance(b, a),
{
    lemma_lev_symmetric(lowercased(a), lowercased(b));
}

/// Two texts are at case-insensitive distance zero exactly when they
/// lower-case to the same text, of a length the machine can count.
pub proof fn law_edit_distance_zero(a: Seq<char>, b: Seq<char>)
    ensures
        text_distance(a, b) == 0 <==> (lowercased(a) == lowercased(b) && lowercased(a).len()
            < usize::MAX),
{
    lemma_lev_zero(lowercased(a), lowercased(b));
}

/// The edit distance never exceeds the longer length.
pub proof fn lemma_lev_bound(a: Seq<char>, b: Seq<char>)
    ensures
        lev(a, b) <= if a.len() >= b.len() {
            a.len()
        } else {
            b.len()
        },
    decreases a.len() + b.len(),
{
    if a.len() > 0 && b.len() > 0 {
        lemma_lev_bound(a.drop_last(), b.drop_last());
    }
}

/// One step of the distance table: extending both prefixes by one
/// character.
pub proof fn lemma_lev_step(a: Seq<char>, b: Seq<char>, i: int, j: int)
    requires
        0 <= i < a.len(),
        0 <= j < b.len(),
    ensures
        lev(a.take(i + 1), b.take(j + 1)) == min3(
            lev(a.take(i), b.take(j)) + if a[i] == b[j] {
                0int
            } else {
                1int
            },
            lev(a.take(i), b.take(j + 1)) + 1int,
            lev(a.take(i + 1), b.take(j)) + 1int,
        ),
{
    assert(a.take(i + 1).drop_last() =~= a.take(i));
    assert(b.take(j + 1).drop_last() =~= b.take(j));
    assert(a.take(i + 1).last() == a[i]);
    assert(b.take(j + 1).last() == b[j]);
}

/// Levenshtein distance of `a` and `b` after lower-casing both.
fn edit_distance(a: &str, b: &str) -> (d: usize)
    ensures
        d == text_distance(a@, b@),
{
    let la = lowercase(a);
    let lb = lowercase(b);
    let a = chars_of(la.as_str());
    let b = chars_of(lb.as_str());
    if a.len() >= usize::MAX || b.len() >= usize::MAX {
        return usize::MAX;
    }
    let m = a.len();
    let n = b.len();
    let mut prev: Vec<usize> = Vec::new();
    let mut j: usize = 0;
    while j <= n
        invariant
            0 <= j <= n + 1,
            n == b.len(),
            n < usize::MAX,
            prev@.len() == j,
            forall|k: int| 0 <= k < j ==> prev@[k] == lev(a@.take(0), b@.take(k)),
        decreases n + 1 - j,
    {
        proof {
            assert(a@.take(0).len() == 0);
        }
        prev.push(j);
        j = j + 1;
    }
    let mut curr: Vec<usize> = Vec::new();
    let mut z: usize = 0;
    while z <= n
        invariant
            0 <= z <= n + 1,
            n == b.len(),
            n < usize::MAX,
            curr@.len() == z,
        decreases n + 1 - z,
    {
        curr.push(0);
        z = z + 1;
    }
    let mut i: usize = 0;
    while i < m
        invariant
            0 <= i <= m,
            m == a.len(),
            n == b.len(),
            m < usize::MAX,
            n < usize::MAX,
            prev@.len() == n + 1,
            curr@.len() == n + 1,
            forall|k: int| 0 <= k <= n ==> #[trigger] prev@[k] == lev(a@.take(i as int), b@.take(k)),
        decreases m - i,
    {
        proof {
            assert(b@.take(0).len() == 0);
            assert(a@.take(i + 1).len() == i + 1);
        }
        curr.set(0, i + 1);
        let mut k: usize = 0;
        while k < n
            invariant
                0 <= k <= n,
                0 <= i < m,
                m == a.len(),
                n == b.len(),
                m < usize::MAX,
                n < usize::MAX,
                prev@.len() == n + 1,
                curr@.len() == n + 1,
                forall|q: int|
                    0 <= q <= n ==> #[trigger] prev@[q] == lev(a@.take(i as int), b@.take(q)),
                forall|q: int|
                    0 <= q <= k ==> #[trigger] curr@[q] == lev(a@.take(i + 1), b@.take(q)),
            decreases n - k,
        {
            proof {
                lemma_lev_step(a@, b@, i as int, k as int);
                lemma_lev_bound(a@.take(i as int), b@.take(k as int));
                lemma_lev_bound(a@.take(i as int), b@.take(k + 1));
                lemma_lev_bound(a@.take(i + 1), b@.take(k as int));
            }
            let cost: usize = if a[i] == b[k] {
                0
            } else {
                1
            };
            let substitution = prev[k] + cost;
            let deletion = prev[k + 1] + 1;
            let insertion = curr[k] + 1;
            let mut best = substitution;
            if deletion < best {
                best = deletion;
            }
            if insertion < best {
                best = insertion;
            }
            curr.set(k + 1, best);
            k = k + 1;
        }
        std::mem::swap(&mut prev, &mut curr);
        i = i + 1;
    }
    proof {
        assert(a@.take(m as int) =~= a@);
        assert(b@.take(n as int) =~= b@);
    }
    prev[n]
}

/// The option closest to `written` by case-insensitive edit distance, if
/// one is within three edits: the first of the closest ones.
pub open spec fn is_nearest(
    written: Seq<char>,
    options: Seq<&'static str>,
    r: Option<&'static str>,
) -> bool {
    match r {
        None => forall|i: int|
            0 <= i < options.len() ==> text_distance(written, #[trigger] options[i]@) > 3,
        Some(c) => exists|i: int|
            #![trigger options[i]]
            0 <= i < options.len() && options[i] == c && text_distance(written, c@) <= 3 && (
            forall|j: int|
                0 <= j < options.len() ==> text_distance(written, c@) <= text_distance(
                    written,
                    #[trigger] options[j]@,
                ) || text_distance(written, options[j]@) > 3) && (forall|j: int|
                0 <= j < i ==> text_distance(written, c@) < text_distance(
                    written,
                    #[trigger] options[j]@,
                ) || text_distance(written, options[j]@) > 3),
    }
}

/// The candidate from `options` closest to `written` (trimmed), if any is
/// within three case-insensitive edits; among equally close ones the first.
pub fn nearest(written: &str, options: &[&'static str]) -> (r: Option<&'static str>)
    ensures
        is_nearest(trimmed(written@), options@, r),
{
    let w = trim(written);
    let mut best: Option<&'static str> = None;
    let mut best_distance: usize = 0;
    let mut i: usize = 0;
    while i < options.len()
        invariant
            0 <= i <= options.len(),
            w@ == trimmed(written@),
            ({
                &&& best is None ==> forall|j: int|
                    0 <= j < i ==> text_distance(w@, #[trigger] options@[j]@) > 3
                &&& best is Some ==> exists|p: int|
                    #![trigger options@[p]]
                    0 <= p < i && options@[p] == best.unwrap() && best_distance == text_distance(
                        w@,
                        options@[p]@,
                    ) && best_distance <= 3 && (forall|j: int|
                        0 <= j < i ==> best_distance <= text_distance(
                            w@,
                            #[trigger] options@[j]@,
                        ) || text_distance(w@, options@[j]@) > 3) && (forall|j: int|
                        0 <= j < p ==> best_distance < text_distance(
                            w@,
                            #[trigger] options@[j]@,
                        ) || text_distance(w@, options@[j]@) > 3)
            }),
        decreases options.len() - i,
    {
        let candidate = options[i];
        let d = edit_distance(w, candidate);
        if d <= 3 {
            match best {
                None => {
                    best = Some(candidate);
                    best_distance = d;
                },
                Some(_) => {
                    if d < best_distance {
                        best = Some(candidate);
                        best_distance = d;
                    }
                },
            }
        }
        i = i + 1;
    }
    best
}

/// `r` is the first of the closest names to `written`, within three edits,
/// or `None` when no name is that close.
pub open spec fn is_nearest_name(written: Seq<char>, names: Seq<Seq<char>>, r: Option<Seq<char>>) -> bool {
    match r {
        None => forall|i: int|
            0 <= i < names.len() ==> text_distance(written, #[trigger] names[i]) > 3,
        Some(c) => exists|i: int|
            #![trigger names[i]]
            0 <= i < names.len() && names[i] == c && text_distance(written, c) <= 3 && (forall|
                j: int,
            |
                0 <= j < names.len() ==> text_distance(written, c) <= text_distance(
                    written,
                    #[trigger] names[j],
                ) || text_distance(written, names[j]) > 3) && (forall|j: int|
                0 <= j < i ==> text_distance(written, c) < text_distance(
                    written,
                    #[trigger] names[j],
                ) || text_distance(written, names[j]) > 3),
    }
}

/// The suggested name for `written` among `names`.
pub open spec fn nearest_name(written: Seq<char>, names: Seq<Seq<char>>) -> Option<Seq<char>> {
    choose|r: Option<Seq<char>>| is_nearest_name(written, names, r)
}

/// At most one suggestion fits.
pub proof fn lemma_nearest_unique(
    written: Seq<char>,
    names: Seq<Seq<char>>,
    r1: Option<Seq<char>>,
    r2: Option<Seq<char>>,
)
    requires
        is_nearest_name(written, names, r1),
        is_nearest_name(written, names, r2),
    ensures
        r1 == r2,
{
    if r1 is Some && r2 is Some {
        let c1 = r1.unwrap();
        let c2 = r2.unwrap();
        let i1 = choose|i: int|
            #![trigger names[i]]
            0 <= i < names.len() && names[i] == c1 && text_distance(written, c1) <= 3 && (forall|
                j: int,
            |
                0 <= j < names.len() ==> text_distance(written, c1) <= text_distance(
                    written,
                    #[trigger] names[j],
                ) || text_distance(written, names[j]) > 3) && (forall|j: int|
                0 <= j < i ==> text_distance(written, c1) < text_distance(
                    written,
                    #[trigger] names[j],
                ) || text_distance(written, names[j]) > 3);
        let i2 = choose|i: int|
            #![trigger names[i]]
            0 <= i < names.len() && names[i] == c2 && text_distance(written, c2) <= 3 && (forall|
                j: int,
            |
                0 <= j < names.len() ==> text_distance(written, c2) <= text_distance(
                    written,
                    #[trigger] names[j],
                ) || text_distance(written, names[j]) > 3) && (forall|j: int|
                0 <= j < i ==> text_distance(written, c2) < text_distance(
                    written,
                    #[trigger] names[j],
                ) || text_distance(written, names[j]) > 3);
        assert(text_distance(written, names[i1]) <= text_distance(written, names[i2]));
        assert(text_distance(written, names[i2]) <= text_distance(written, names[i1]));
        if i1 < i2 {
            assert(text_distance(written, names[i1]) > 3 || text_distance(written, c2)
                < text_distance(written, names[i1]));
        } else if i2 < i1 {
            assert(text_distance(written, names[i2]) > 3 || text_distance(written, c1)
                < text_distance(written, names[i2]));
        }
    } else if r1 is Some {
        let c1 = r1.unwrap();
        let i1 = choose|i: int|
            #![trigger names[i]]
            0 <= i < names.len() && names[i] == c1 && text_distance(written, c1) <= 3;
        assert(text_distance(written, names[i1]) > 3);
    } else if r2 is Some {
        let c2 = r2.unwrap();
        let i2 = choose|i: int|
            #![trigger names[i]]
            0 <= i < names.len() && names[i] == c2 && text_distance(written, c2) <= 3;
        assert(text_distance(written, names[i2]) > 3);
    }
}

/// The suggestion `nearest` computes over interned names is the one
/// `nearest_name` describes over their texts.
pub proof fn lemma_nearest_view(
    written: Seq<char>,
    options: Seq<&'static str>,
    names: Seq<Seq<char>>,
    r: Option<&'static str>,
)
    requires
        is_nearest(written, options, r),
        names.len() == options.len(),
        forall|i: int| 0 <= i < options.len() ==> #[trigger] names[i] == options[i]@,
    ensures
        nearest_name(written, names) == match r {
            Some(c) => Some(c@),
            None => None::<Seq<char>>,
        },
{
    let rv = match r {
        Some(c) => Some(c@),
        None => None::<Seq<char>>,
    };
    match r {
        None => {
            assert forall|i: int| 0 <= i < names.len() implies text_distance(
                written,
                #[trigger] names[i],
            ) > 3 by {
                assert(names[i] == options[i]@);
            }
        },
        Some(c) => {
            let i = choose|i: int|
                #![trigger options[i]]
                0 <= i < options.len() && options[i] == c && text_distance(written, c@) <= 3 && (
                forall|j: int|
                    0 <= j < options.len() ==> text_distance(written, c@) <= text_distance(
                        written,
                        #[trigger] options[j]@,
                    ) || text_distance(written, options[j]@) > 3) && (forall|j: int|
                    0 <= j < i ==> text_distance(written, c@) < text_distance(
                        written,
                        #[trigger] options[j]@,
                    ) || text_distance(written, options[j]@) > 3);
            assert(names[i] == c@);
            assert forall|j: int| 0 <= j < names.len() implies text_distance(written, c@)
                <= text_distance(written, #[trigger] names[j]) || text_distance(written, names[j])
                > 3 by {
                assert(names[j] == options[j]@);
            }
            assert forall|j: int| 0 <= j < i implies text_distance(written, c@) < text_distance(
                written,
                #[trigger] names[j],
            ) || text_distance(written, names[j]) > 3 by {
                assert(names[j] == options[j]@);
            }
        },
    }
    assert(is_nearest_name(written, names, rv));
    let chosen = nearest_name(written, names);
    assert(is_nearest_name(written, names, chosen));
    lemma_nearest_unique(written, names, chosen, rv);
}

// ---------------------------------------------------------------------
// Lowering a contract
// ---------------------------------------------------------------------

/// One element of the `on:` list: its source text and the fault class it
/// parsed to, if any.
pub struct FaultElement {
    /// The element as written.
    pub written: String,
    /// The class it denotes; `None` for an unknown name.
    pub class: Option<FaultClass>,
}

/// One element of the `strategies:` list: its source text, the strategy it
/// parsed to, and, for `SubstituteAlternate`, why its target cannot stand
/// in for the guarded function (`None` when it can).
pub struct StrategyElement {
    /// The element as written.
    pub written: String,
    /// The strategy it denotes; `None` when it is not a strategy.
    pub strategy: Option<Strategy>,
    /// For an alternate, the reason resolving it failed.
    pub alternate_problem: Option<String>,
}

/// The arguments of a `@heal(...)` attribute that carries an argument list.
pub struct HealArguments {
    /// The `on:` elements, when `on:` is written.
    pub on: Option<Vec<FaultElement>>,
    /// The `strategies:` elements, when `strategies:` is written.
    pub strategies: Option<Vec<StrategyElement>>,
    /// Whether `postcondition:` is written.
    pub has_postcondition: bool,
}

/// What the guarded function offers to discharge strategy obligations.
#[derive(Debug, Clone, Copy, PartialEq, Eq, Structural)]
pub struct SiteFacts {
    /// Its declared capabilities.
    pub capabilities: Capabilities,
    /// Whether its file declares a `supervisor` block.
    pub has_supervisor: bool,
    /// Whether it returns `Never`.
    pub returns_never: bool,
}

/// A problem found in a healing contract; `element` is the position of the
/// offending element in its list.
#[derive(Debug, PartialEq, Eq)]
pub enum HealDiagnostic {
    /// No strategy was written.
    EmptyStrategies,
    /// An `on:` element names no known fault class.
    UnknownFaultClass { element: usize, written: String, suggestion: Option<&'static str> },
    /// A `strategies:` element names no known strategy.
    UnknownStrategy { element: usize, written: String, suggestion: Option<&'static str> },
    /// A strategy is repeated or its obligation cannot be discharged.
    InfeasibleStrategy { element: usize, strategy: &'static str, reason: String },
}

/// A diagnostic by the texts it carries.
pub enum DiagnosticView {
    EmptyStrategies,
    UnknownFaultClass { element: usize, written: Seq<char>, suggestion: Option<Seq<char>> },
    UnknownStrategy { element: usize, written: Seq<char>, suggestion: Option<Seq<char>> },
    InfeasibleStrategy { element: usize, strategy: Seq<char>, reason: Seq<char> },
}

impl HealDiagnostic {
    /// The diagnostic by its texts.
    pub open spec fn view_of(self) -> DiagnosticView {
        match self {
            HealDiagnostic::EmptyStrategies => DiagnosticView::EmptyStrategies,
            HealDiagnostic::UnknownFaultClass { element, written, suggestion } => {
                DiagnosticView::UnknownFaultClass {
                    element,
                    written: written@,
                    suggestion: match suggestion {
                        Some(c) => Some(c@),
                        None => None,
                    },
                }
            },
            HealDiagnostic::UnknownStrategy { element, written, suggestion } => {
                DiagnosticView::UnknownStrategy {
                    element,
                    written: written@,
                    suggestion: match suggestion {
                        Some(c) => Some(c@),
                        None => None,
                    },
                }
            },
            HealDiagnostic::InfeasibleStrategy { element, strategy, reason } => {
                DiagnosticView::InfeasibleStrategy { element, strategy: strategy@, reason: reason@ }
            },
        }
    }
}

/// The texts of a list of diagnostics.
pub open spec fn views_of(ds: Seq<HealDiagnostic>) -> Seq<DiagnosticView> {
    ds.map_values(|d: HealDiagnostic| d.view_of())
}

/// Why a strategy cannot be used, given what the function offers and, for
/// an alternate, the problem resolving it; `None` when it can be used.
pub open spec fn infeasible_text(
    s: Strategy,
    facts: SiteFacts,
    alternate_problem: Option<Seq<char>>,
) -> Option<Seq<char>> {
    let caps = facts.capabilities;
    match requirement_of(s) {
        Requirement::Nothing => None,
        Requirement::DefaultableReturn => if facts.returns_never {
            Some(
                "the function returns `Never`, so there is no default value to return instead"@,
            )
        } else {
            None
        },
        Requirement::Memoizable => if !caps.memoizable {
            Some(
                "caching the last good result needs `@memoizable` on this function, so the compiler knows the result may be reused"@,
            )
        } else {
            None
        },
        Requirement::Idempotent(n) => if caps.idempotent_up_to == 0 {
            Some(
                "retrying re-runs this function's effects, so it needs `@idempotent("@
                    + crate::text::decimal(n as nat)
                    + ")` to declare that calling it "@ + crate::text::decimal(n as nat)
                    + " times is equivalent to calling it once"@,
            )
        } else if caps.idempotent_up_to < n {
            Some(
                "this function declares `@idempotent("@ + crate::text::decimal(
                    caps.idempotent_up_to as nat,
                ) + ")`, which is fewer than the "@ + crate::text::decimal(n as nat)
                    + " attempts `RetryWithBackoff("@ + crate::text::decimal(n as nat)
                    + ")` would make"@,
            )
        } else {
            None
        },
        Requirement::Snapshot => if !caps.snapshot {
            Some(
                "restarting needs `@snapshot` on this function, so there is committed state to restore from"@,
            )
        } else {
            None
        },
        Requirement::Supervisor => if !facts.has_supervisor {
            Some(
                "there is no `supervisor` block in this file to escalate to, so this contract is the root and has no parent"@,
            )
        } else {
            None
        },
        Requirement::ResolvableAlternate => alternate_problem,
    }
}

/// The text of an optional string.
pub open spec fn opt_text(s: Option<String>) -> Option<Seq<char>> {
    match s {
        Some(t) => Some(t@),
        None => None,
    }
}

/// Appends `b` to `a` and returns the result.
fn concat(a: String, b: &str) -> (r: String)
    ensures
        r@ == a@ + b@,
{
    let mut r = a;
    r.append(b);
    r
}

/// Why `strategy` cannot be used on the guarded function, or `None`.
pub fn infeasible_reason(
    strategy: &Strategy,
    facts: &SiteFacts,
    alternate_problem: &Option<String>,
) -> (r: Option<String>)
    ensures
        opt_text(r) == infeasible_text(*strategy, *facts, opt_text(*alternate_problem)),
{
    let caps = facts.capabilities;
    match strategy.feasibility_requirement() {
        Requirement::Nothing => None,
        Requirement::DefaultableReturn => if facts.returns_never {
            Some(
                String::from_str(
                    "the function returns `Never`, so there is no default value to return instead",
                ),
            )
        } else {
            None
        },
        Requirement::Memoizable => if !caps.memoizable {
            Some(
                String::from_str(
                    "caching the last good result needs `@memoizable` on this function, so the compiler knows the result may be reused",
                ),
            )
        } else {
            None
        },
        Requirement::Idempotent(n) => {
            let digits = crate::text::u64_decimal(n as u64);
            if caps.idempotent_up_to == 0 {
                let r = String::from_str(
                    "retrying re-runs this function's effects, so it needs `@idempotent(",
                );
                let r = concat(r, digits.as_str());
                let r = concat(r, ")` to declare that calling it ");
                let r = concat(r, digits.as_str());
                let r = concat(r, " times is equivalent to calling it once");
                Some(r)
            } else if caps.idempotent_up_to < n {
                let declared = crate::text::u64_decimal(caps.idempotent_up_to as u64);
                let r = String::from_str("this function declares `@idempotent(");
                let r = concat(r, declared.as_str());
                let r = concat(r, ")`, which is fewer than the ");
                let r = concat(r, digits.as_str());
                let r = concat(r, " attempts `RetryWithBackoff(");
                let r = concat(r, digits.as_str());
                let r = concat(r, ")` would make");
                Some(r)
            } else {
                None
            }
        },
        Requirement::Snapshot => if !caps.snapshot {
            Some(
                String::from_str(
                    "restarting needs `@snapshot` on this function, so there is committed state to restore from",
                ),
            )
        } else {
            None
        },
        Requirement::Supervisor => if !facts.has_supervisor {
            Some(
                String::from_str(
                    "there is no `supervisor` block in this file to escalate to, so this contract is the root and has no parent",
                ),
            )
        } else {
            None
        },
        Requirement::ResolvableAlternate => match alternate_problem {
            Some(p) => Some(p.clone()),
            None => None,
        },
    }
}

/// The names of the built-in fault classes and strategies as interned
/// texts.
pub open spec fn texts(v: Seq<&'static str>) -> Seq<Seq<char>> {
    v.map_values(|s: &'static str| s@)
}

/// The diagnostic and class an `on:` element yields.
pub open spec fn on_outcome(on: Seq<FaultElement>) -> (Seq<FaultClass>, Seq<DiagnosticView>)
    decreases on.len(),
{
    if on.len() == 0 {
        (Seq::empty(), Seq::empty())
    } else {
        let prev = on_outcome(on.drop_last());
        let e = on.last();
        match e.class {
            Some(c) => (prev.0.push(c), prev.1),
            None => (
                prev.0,
                prev.1.push(
                    DiagnosticView::UnknownFaultClass {
                        element: (on.len() - 1) as usize,
                        written: e.written@,
                        suggestion: nearest_name(trimmed(e.written@), builtin_fault_names()),
                    },
                ),
            ),
        }
    }
}

/// The duplicate-strategy reason.
pub open spec fn duplicate_text(name: Seq<char>) -> Seq<char> {
    "`"@ + name + "` is already listed earlier in this contract"@
}

/// The accepted strategies, the diagnostics, and the names seen after the
/// first `k` elements of a `strategies:` list.
pub open spec fn strategies_outcome(elems: Seq<StrategyElement>, facts: SiteFacts) -> (
    Seq<Strategy>,
    Seq<DiagnosticView>,
    Seq<Seq<char>>,
)
    decreases elems.len(),
{
    if elems.len() == 0 {
        (Seq::empty(), Seq::empty(), Seq::empty())
    } else {
        let prev = strategies_outcome(elems.drop_last(), facts);
        let e = elems.last();
        let idx = (elems.len() - 1) as usize;
        match e.strategy {
            None => (
                prev.0,
                prev.1.push(
                    DiagnosticView::UnknownStrategy {
                        element: idx,
                        written: e.written@,
                        suggestion: nearest_name(trimmed(e.written@), strategy_names()),
                    },
                ),
                prev.2,
            ),
            Some(st) => {
                let name = strategy_name_of(st)@;
                if prev.2.contains(name) {
                    (
                        prev.0,
                        prev.1.push(
                            DiagnosticView::InfeasibleStrategy {
                                element: idx,
                                strategy: name,
                                reason: duplicate_text(name),
                            },
                        ),
                        prev.2,
                    )
                } else {
                    match infeasible_text(st, facts, opt_text(e.alternate_problem)) {
                        Some(reason) => (
                            prev.0,
                            prev.1.push(
                                DiagnosticView::InfeasibleStrategy {
                                    element: idx,
                                    strategy: name,
                                    reason,
                                },
                            ),
                            prev.2.push(name),
                        ),
                        None => (prev.0.push(st), prev.1, prev.2.push(name)),
                    }
                }
            },
        }
    }
}

/// Whether `name` is among `seen`.
fn contains_name(seen: &Vec<&'static str>, name: &'static str) -> (b: bool)
    ensures
        b == texts(seen@).contains(name@),
{
    let mut i: usize = 0;
    while i < seen.len()
        invariant
            0 <= i <= seen.len(),
            forall|j: int| 0 <= j < i ==> seen@[j]@ != name@,
        decreases seen.len() - i,
    {
        if crate::text::str_eq(seen[i], name) {
            proof {
                assert(texts(seen@)[i as int] == name@);
            }
            return true;
        }
        i = i + 1;
    }
    proof {
        if texts(seen@).contains(name@) {
            let k = choose|k: int| 0 <= k < texts(seen@).len() && texts(seen@)[k] == name@;
            assert(seen@[k]@ == name@);
        }
    }
    false
}

/// The diagnostics of the `on:` list, and the classes it guards.
fn lower_on(on: &Vec<FaultElement>) -> (r: (Vec<FaultClass>, Vec<HealDiagnostic>))
    ensures
        (r.0@, views_of(r.1@)) == on_outcome(on@),
{
    let names = FaultClass::builtin_names();
    let mut classes: Vec<FaultClass> = Vec::new();
    let mut diags: Vec<HealDiagnostic> = Vec::new();
    let mut i: usize = 0;
    while i < on.len()
        invariant
            0 <= i <= on.len(),
            texts(names@) == builtin_fault_names(),
            (classes@, views_of(diags@)) == on_outcome(on@.take(i as int)),
        decreases on.len() - i,
    {
        let e = &on[i];
        proof {
            assert(on@.take(i + 1).drop_last() =~= on@.take(i as int));
            assert(on@.take(i + 1).last() == on@[i as int]);
        }
        match &e.class {
            Some(c) => {
                classes.push(c.clone());
            },
            None => {
                let suggestion = nearest(e.written.as_str(), names.as_slice());
                proof {
                    assert forall|k: int| 0 <= k < names@.len() implies #[trigger] builtin_fault_names()[k]
                        == names@[k]@ by {
                        assert(texts(names@)[k] == names@[k]@);
                    }
                    lemma_nearest_view(
                        trimmed(e.written@),
                        names@,
                        builtin_fault_names(),
                        suggestion,
                    );
                }
                let d = HealDiagnostic::UnknownFaultClass {
                    element: i,
                    written: e.written.clone(),
                    suggestion,
                };
                diags.push(d);
            },
        }
        proof {
            assert(views_of(diags@) =~= on_outcome(on@.take(i + 1)).1);
        }
        i = i + 1;
    }
    proof {
        assert(on@.take(i as int) =~= on@);
    }
    (classes, diags)
}

/// The accepted strategies and the diagnostics of a `strategies:` list.
fn lower_strategies(elems: &Vec<StrategyElement>, facts: &SiteFacts) -> (r: (
    Vec<Strategy>,
    Vec<HealDiagnostic>,
))
    ensures
        r.0@ == strategies_outcome(elems@, *facts).0,
        views_of(r.1@) == strategies_outcome(elems@, *facts).1,
{
    let names = Strategy::names();
    let mut accepted: Vec<Strategy> = Vec::new();
    let mut diags: Vec<HealDiagnostic> = Vec::new();
    let mut seen: Vec<&'static str> = Vec::new();
    let mut i: usize = 0;
    while i < elems.len()
        invariant
            0 <= i <= elems.len(),
            texts(names@) == strategy_names(),
            accepted@ == strategies_outcome(elems@.take(i as int), *facts).0,
            views_of(diags@) == strategies_outcome(elems@.take(i as int), *facts).1,
            texts(seen@) == strategies_outcome(elems@.take(i as int), *facts).2,
        decreases elems.len() - i,
    {
        let e = &elems[i];
        proof {
            assert(elems@.take(i + 1).drop_last() =~= elems@.take(i as int));
            assert(elems@.take(i + 1).last() == elems@[i as int]);
        }
        match &e.strategy {
            None => {
                let suggestion = nearest(e.written.as_str(), names.as_slice());
                proof {
                    assert forall|k: int| 0 <= k < names@.len() implies #[trigger] strategy_names()[k]
                        == names@[k]@ by {
                        assert(texts(names@)[k] == names@[k]@);
                    }
                    lemma_nearest_view(trimmed(e.written@), names@, strategy_names(), suggestion);
                }
                diags.push(
                    HealDiagnostic::UnknownStrategy {
                        element: i,
                        written: e.written.clone(),
                        suggestion,
                    },
                );
                proof {
                    assert(views_of(diags@) =~= strategies_outcome(elems@.take(i + 1), *facts).1);
                }
            },
            Some(strategy) => {
                let name = strategy.name();
                if contains_name(&seen, name) {
                    let reason = String::from_str("`");
                    let reason = concat(reason, name);
                    let reason = concat(reason, "` is already listed earlier in this contract");
                    diags.push(
                        HealDiagnostic::InfeasibleStrategy { element: i, strategy: name, reason },
                    );
                    proof {
                        assert(views_of(diags@) =~= strategies_outcome(
                            elems@.take(i + 1),
                            *facts,
                        ).1);
                    }
                } else {
                    seen.push(name);
                    proof {
                        assert(texts(seen@) =~= strategies_outcome(elems@.take(i + 1), *facts).2);
                    }
                    match infeasible_reason(strategy, facts, &e.alternate_problem) {
                        Some(reason) => {
                            diags.push(
                                HealDiagnostic::InfeasibleStrategy {
                                    element: i,
                                    strategy: name,
                                    reason,
                                },
                            );
                            proof {
                                assert(views_of(diags@) =~= strategies_outcome(
                                    elems@.take(i + 1),
                                    *facts,
                                ).1);
                            }
                        },
                        None => {
                            accepted.push(strategy.clone());
                        },
                    }
                }
            },
        }
        i = i + 1;
    }
    proof {
        assert(elems@.take(i as int) =~= elems@);
    }
    (accepted, diags)
}

/// The expected diagnostics of a contract's arguments.
pub open spec fn contract_outcome(args: HealArguments, facts: SiteFacts) -> (
    Seq<FaultClass>,
    Seq<Strategy>,
    Seq<DiagnosticView>,
) {
    let on = match args.on {
        Some(v) => on_outcome(v@),
        None => (Seq::empty(), Seq::empty()),
    };
    match args.strategies {
        None => (on.0, Seq::empty(), on.1.push(DiagnosticView::EmptyStrategies)),
        Some(v) => {
            let st = strategies_outcome(v@, facts);
            let tail = if st.0.len() == 0 && v@.len() == 0 {
                seq![DiagnosticView::EmptyStrategies]
            } else {
                Seq::empty()
            };
            (on.0, st.0, on.1 + st.1 + tail)
        },
    }
}

/// Lowers and validates a `@heal(...)` contract: `args` is `None` for a
/// bare `@heal` without an argument list. Returns the best available
/// reading of the contract together with every problem found: unknown
/// names (with the nearest known name), a missing strategy list, an empty
/// one, repeated strategies, and strategies whose obligation the function
/// cannot discharge.
pub fn heal_contract_diagnostics(args: Option<&HealArguments>, facts: &SiteFacts) -> (r: (
    HealContract,
    Vec<HealDiagnostic>,
))
    ensures
        args is None ==> {
            &&& r.0.fault_classes@.len() == 0
            &&& r.0.strategies@.len() == 0
            &&& !r.0.has_postcondition
            &&& views_of(r.1@) == seq![DiagnosticView::EmptyStrategies]
        },
        args is Some ==> {
            let expected = contract_outcome(*args.unwrap(), *facts);
            &&& r.0.has_postcondition == args.unwrap().has_postcondition
            &&& r.0.fault_classes@ == expected.0
            &&& r.0.strategies@ == expected.1
            &&& views_of(r.1@) == expected.2
        },
{
    let args = match args {
        None => {
            let mut diags: Vec<HealDiagnostic> = Vec::new();
            diags.push(HealDiagnostic::EmptyStrategies);
            proof {
                assert(views_of(diags@) =~= seq![DiagnosticView::EmptyStrategies]);
            }
            return (HealContract::default(), diags);
        },
        Some(a) => a,
    };
    let (classes, mut diags) = match &args.on {
        Some(on) => lower_on(on),
        None => {
            let r: (Vec<FaultClass>, Vec<HealDiagnostic>) = (Vec::new(), Vec::new());
            proof {
                assert(views_of(r.1@) =~= Seq::<DiagnosticView>::empty());
            }
            r
        },
    };
    let ghost on_views = views_of(diags@);
    match &args.strategies {
        None => {
            diags.push(HealDiagnostic::EmptyStrategies);
            proof {
                assert(views_of(diags@) =~= on_views.push(DiagnosticView::EmptyStrategies));
            }
            (
                HealContract {
                    fault_classes: classes,
                    strategies: Vec::new(),
                    has_postcondition: args.has_postcondition,
                },
                diags,
            )
        },
        Some(elems) => {
            let (accepted, mut more) = lower_strategies(elems, facts);
            let ghost st_views = views_of(more@);
            diags.append(&mut more);
            proof {
                assert(views_of(diags@) =~= on_views + st_views);
            }
            if accepted.len() == 0 && elems.len() == 0 {
                let ghost before = views_of(diags@);
                diags.push(HealDiagnostic::EmptyStrategies);
                proof {
                    assert(views_of(diags@) =~= before + seq![DiagnosticView::EmptyStrategies]);
                }
            } else {
                proof {
                    assert(views_of(diags@) =~= on_views + st_views + Seq::<DiagnosticView>::empty());
                }
            }
            (
                HealContract {
                    fault_classes: classes,
                    strategies: accepted,
                    has_postcondition: args.has_postcondition,
                },
                diags,
            )
        },
    }
}

// ---------------------------------------------------------------------
// Reading the contract off a function's attributes
// ---------------------------------------------------------------------

/// A function of the guarded function's module, by name, with how it
/// relates to the guarded function as an alternate.
pub struct ModuleFunction {
    pub name: String,
    pub relation: AlternateMatch,
}

/// How the first module function named `name` relates to the guarded
/// function; `NotFound` when none has that name.
pub open spec fn alternate_found(fns: Seq<ModuleFunction>, name: Seq<char>) -> AlternateMatch
    decreases fns.len(),
{
    if fns.len() == 0 {
        AlternateMatch::NotFound
    } else if fns[0].name@ == name {
        fns[0].relation
    } else {
        alternate_found(fns.drop_first(), name)
    }
}

/// Whether `elems` are the `on:` elements read from `items`, in order: each
/// with its text and the fault class it names.
pub open spec fn faults_read(items: Seq<Written>, elems: Seq<FaultElement>) -> bool {
    &&& elems.len() == items.len()
    &&& forall|i: int|
        0 <= i < items.len() ==> (#[trigger] elems[i]).written@ == items[i].text@
            && fault_class_read(items[i].expr, elems[i].class)
}

/// Why the strategy read from an element cannot stand in, when it is an
/// alternate: its target resolved among the module's functions.
pub open spec fn alternate_problem_of(s: Option<Strategy>, fns: Seq<ModuleFunction>) -> Option<
    Seq<char>,
> {
    match s {
        Some(Strategy::SubstituteAlternate(n)) => alternate_problem_text(n@, alternate_found(fns, n@)),
        _ => None,
    }
}

/// Whether `elems` are the `strategies:` elements read from `items`, in
/// order: each with its text, the strategy it spells and, for an
/// alternate, why its target cannot stand in.
pub open spec fn strategies_read(
    items: Seq<Written>,
    elems: Seq<StrategyElement>,
    fns: Seq<ModuleFunction>,
) -> bool {
    &&& elems.len() == items.len()
    &&& forall|i: int|
        0 <= i < items.len() ==> (#[trigger] elems[i]).written@ == items[i].text@ && strategy_read(
            items[i].expr,
            elems[i].strategy,
        ) && opt_text(elems[i].alternate_problem) == alternate_problem_of(elems[i].strategy, fns)
}

/// Whether `args` are the arguments read from a `@heal` argument list:
/// whether `postcondition:` is written, and the elements of `on:` and
/// `strategies:` when they are written.
pub open spec fn heal_args_read(els: Seq<ArgElement>, fns: Seq<ModuleFunction>, args: HealArguments) -> bool {
    &&& args.has_postcondition == named_from(els, "postcondition"@, 0) is Some
    &&& match named_from(els, "on"@, 0) {
        Some(w) => args.on matches Some(v) && faults_read(items_of(w), v@),
        None => args.on is None,
    }
    &&& match named_from(els, "strategies"@, 0) {
        Some(w) => args.strategies matches Some(v) && strategies_read(items_of(w), v@, fns),
        None => args.strategies is None,
    }
}

/// The position of the first attribute named `heal` among `attrs[i..]`.
pub open spec fn heal_attribute_from(attrs: Seq<Attribute>, i: int) -> Option<int>
    decreases attrs.len() - i,
{
    if i < 0 || i >= attrs.len() {
        None
    } else if attrs[i].name matches Some(n) && n@ == "heal"@ {
        Some(i)
    } else {
        heal_attribute_from(attrs, i + 1)
    }
}

/// The `@heal` attribute found lies among the attributes searched.
pub proof fn lemma_heal_attribute_in_range(attrs: Seq<Attribute>, i: int)
    requires
        heal_attribute_from(attrs, i) is Some,
    ensures
        i <= heal_attribute_from(attrs, i)->Some_0 < attrs.len(),
    decreases attrs.len() - i,
{
    if i >= 0 && i < attrs.len() && !(attrs[i].name matches Some(n) && n@ == "heal"@) {
        lemma_heal_attribute_in_range(attrs, i + 1);
    }
}

/// What the guarded function offers: the capabilities its attributes
/// declare, and the two facts given about it.
pub open spec fn site_facts_of(attrs: Seq<Attribute>, has_supervisor: bool, returns_never: bool) -> SiteFacts {
    SiteFacts {
        capabilities: capabilities_of(attrs, attrs.len() as int),
        has_supervisor,
        returns_never,
    }
}

/// How the first module function named `name` relates to the guarded one.
fn lookup_function(fns: &Vec<ModuleFunction>, name: &str) -> (r: AlternateMatch)
    ensures
        r == alternate_found(fns@, name@),
{
    let mut i: usize = 0;
    proof {
        assert(fns@.skip(0) =~= fns@);
    }
    while i < fns.len()
        invariant
            0 <= i <= fns@.len(),
            alternate_found(fns@, name@) == alternate_found(fns@.skip(i as int), name@),
        decreases fns@.len() - i,
    {
        proof {
            assert(fns@.skip(i as int).drop_first() =~= fns@.skip(i + 1));
        }
        if crate::text::str_eq(fns[i].name.as_str(), name) {
            return fns[i].relation;
        }
        i = i + 1;
    }
    AlternateMatch::NotFound
}

/// Reads the `on:` elements of a list argument.
fn read_faults(w: &Written) -> (v: Vec<FaultElement>)
    ensures
        faults_read(items_of(*w), v@),
{
    let items = list_elements(w);
    let mut v: Vec<FaultElement> = Vec::new();
    let mut i: usize = 0;
    while i < items.len()
        invariant
            0 <= i <= items@.len(),
            items@.len() == items_of(*w).len(),
            forall|j: int| 0 <= j < items@.len() ==> *items@[j] == items_of(*w)[j],
            v@.len() == i,
            forall|j: int|
                0 <= j < i ==> (#[trigger] v@[j]).written@ == items_of(*w)[j].text@
                    && fault_class_read(items_of(*w)[j].expr, v@[j].class),
        decreases items@.len() - i,
    {
        let item = items[i];
        let class = parse_fault_class(&item.expr);
        v.push(FaultElement { written: item.text.clone(), class });
        i = i + 1;
    }
    v
}

/// Reads the `strategies:` elements of a list argument, resolving each
/// alternate among the module's functions.
fn read_strategies(w: &Written, fns: &Vec<ModuleFunction>) -> (v: Vec<StrategyElement>)
    ensures
        strategies_read(items_of(*w), v@, fns@),
{
    let items = list_elements(w);
    let mut v: Vec<StrategyElement> = Vec::new();
    let mut i: usize = 0;
    while i < items.len()
        invariant
            0 <= i <= items@.len(),
            items@.len() == items_of(*w).len(),
            forall|j: int| 0 <= j < items@.len() ==> *items@[j] == items_of(*w)[j],
            v@.len() == i,
            forall|j: int|
                0 <= j < i ==> (#[trigger] v@[j]).written@ == items_of(*w)[j].text@ && strategy_read(
                    items_of(*w)[j].expr,
                    v@[j].strategy,
                ) && opt_text(v@[j].alternate_problem) == alternate_problem_of(v@[j].strategy, fns@),
        decreases items@.len() - i,
    {
        let item = items[i];
        let strategy = parse_strategy(&item.expr);
        let alternate_problem = match &strategy {
            Some(Strategy::SubstituteAlternate(n)) => {
                let found = lookup_function(fns, n.as_str());
                resolve_alternate(n.as_str(), found)
            },
            _ => None,
        };
        v.push(StrategyElement { written: item.text.clone(), strategy, alternate_problem });
        i = i + 1;
    }
    v
}

/// Reads the arguments of a `@heal(...)` argument list.
pub fn read_heal_arguments(els: &Vec<ArgElement>, fns: &Vec<ModuleFunction>) -> (args: HealArguments)
    ensures
        heal_args_read(els@, fns@, args),
{
    let has_postcondition = named_arg(els, "postcondition").is_some();
    let on = match named_arg(els, "on") {
        Some(w) => Some(read_faults(w)),
        None => None,
    };
    let strategies = match named_arg(els, "strategies") {
        Some(w) => Some(read_strategies(w, fns)),
        None => None,
    };
    HealArguments { on, strategies, has_postcondition }
}

/// The position of the `@heal` attribute among a function's attributes.
fn find_heal_attribute(attributes: &Vec<Attribute>) -> (r: Option<usize>)
    ensures
        match r {
            Some(i) => heal_attribute_from(attributes@, 0) == Some(i as int),
            None => heal_attribute_from(attributes@, 0) is None,
        },
{
    let mut i: usize = 0;
    proof {
        reveal_strlit("heal");
    }
    while i < attributes.len()
        invariant
            0 <= i <= attributes@.len(),
            heal_attribute_from(attributes@, 0) == heal_attribute_from(attributes@, i as int),
        decreases attributes@.len() - i,
    {
        if let Some(n) = &attributes[i].name {
            if crate::text::str_eq(n.as_str(), "heal") {
                return Some(i);
            }
        }
        i = i + 1;
    }
    None
}

/// The healing contract of a function, read off its attributes, with every
/// problem found: `None` exactly when no attribute is named `heal`;
/// otherwise what `heal_contract_diagnostics` makes of the arguments of the
/// first `@heal` attribute (none for a bare `@heal`), with the capabilities
/// the attributes declare. `has_supervisor` and `returns_never` are the
/// facts about the function's file and return type; `module_functions`
/// lists the functions of its module that an alternate may name.
pub fn heal_contract_of(
    attributes: &Vec<Attribute>,
    has_supervisor: bool,
    returns_never: bool,
    module_functions: &Vec<ModuleFunction>,
) -> (r: Option<(HealContract, Vec<HealDiagnostic>)>)
    ensures
        r is None <==> heal_attribute_from(attributes@, 0) is None,
        heal_attribute_from(attributes@, 0) matches Some(k) ==> {
            let facts = site_facts_of(attributes@, has_supervisor, returns_never);
            let res = r.unwrap();
            match attributes@[k].args {
                None => {
                    &&& res.0.fault_classes@.len() == 0
                    &&& res.0.strategies@.len() == 0
                    &&& !res.0.has_postcondition
                    &&& views_of(res.1@) == seq![DiagnosticView::EmptyStrategies]
                },
                Some(els) => exists|args: HealArguments|
                    #![trigger heal_args_read(els@, module_functions@, args)]
                    heal_args_read(els@, module_functions@, args) && {
                        let expected = contract_outcome(args, facts);
                        &&& res.0.has_postcondition == args.has_postcondition
                        &&& res.0.fault_classes@ == expected.0
                        &&& res.0.strategies@ == expected.1
                        &&& views_of(res.1@) == expected.2
                    },
            }
        },
{
    let k = match find_heal_attribute(attributes) {
        None => return None,
        Some(k) => k,
    };
    proof {
        lemma_heal_attribute_in_range(attributes@, 0);
    }
    let capabilities = read_capabilities(Some(attributes));
    let facts = SiteFacts { capabilities, has_supervisor, returns_never };
    assert(facts == site_facts_of(attributes@, has_supervisor, returns_never));
    match &attributes[k].args {
        None => {
            let res = heal_contract_diagnostics(None, &facts);
            proof {
                assert(heal_attribute_from(attributes@, 0) == Some(k as int));
            }
            Some(res)
        },
        Some(els) => {
            proof {
                assert(heal_attribute_from(attributes@, 0) == Some(k as int));
            }
            let args = read_heal_arguments(els, module_functions);
            let res = heal_contract_diagnostics(Some(&args), &facts);
            proof {
                assert(attributes@[k as int].args == Some(*els));
                assert(heal_args_read(els@, module_functions@, args));
            }
            Some(res)
        },
    }
}

} // verus!

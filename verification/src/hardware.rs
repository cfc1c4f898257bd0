//! Hardware telemetry and the placement policy built on it: which cores may
//! run work, which DRAM rows an allocation must avoid, and how often each
//! program counter has raised a soft error.
//!
//! The telemetry is pure data plus pure policy; migrating threads or
//! remapping memory is left to the host.
use std::collections::{BTreeMap, BTreeSet};
use vstd::prelude::*;

verus! {

/// A physical CPU core index.
pub type CoreId = u8;

/// The DRAM granule assumed for row poisoning and remapping decisions.
pub const DRAM_ROW_GRANULE: u64 = 4096;

/// The number of candidate addresses `alloc_avoiding_bad_rows` tries before
/// it gives up (the first one included).
pub const ALLOC_SEARCH_LIMIT: u64 = 16777215;

/// `a + b`, saturated at `u64::MAX`.
pub open spec fn sat_add(a: int, b: int) -> int {
    if a + b > u64::MAX {
        u64::MAX as int
    } else {
        a + b
    }
}

/// The DRAM row an address lies on.
pub open spec fn row_of(address: int) -> int {
    address / 4096
}

/// An allocation `[address, address + size)` (its end saturated) touches a
/// row of `rows`: it is not empty and some row from the one holding its
/// first byte to the one holding its last byte is in `rows`.
pub open spec fn touches_rows(rows: Set<u64>, address: u64, size: u64) -> bool {
    let end = sat_add(address as int, size as int);
    address < end && exists|r: u64|
        row_of(address as int) <= r <= row_of(end - 1) && #[trigger] rows.contains(r)
}

/// The first granule-aligned address at or after `start`.
pub open spec fn aligned_up(start: u64) -> int {
    ((start as int + 4095) / 4096) * 4096
}

/// The `k`-th candidate address tried by the allocator, starting from
/// `first` and advancing one granule at a time (saturating).
pub open spec fn alloc_candidate(first: int, k: nat) -> int
    decreases k,
{
    if k == 0 {
        first
    } else {
        sat_add(alloc_candidate(first, (k - 1) as nat), 4096)
    }
}

/// Number of occurrences of `c` in `s`.
pub open spec fn is_sorted_cores(s: Seq<u8>) -> bool {
    forall|i: int, j: int| 0 <= i <= j < s.len() ==> s[i] <= s[j]
}

/// A report the telemetry can receive.
pub enum TelemetryReport {
    FaultyCore(u8),
    ThrottledCore(u8),
    BadDramRow(u64),
    SoftError(u64),
}

/// The faulty and throttled cores after `reports`, in order, starting from
/// `(faulty, throttled)`, as `report_faulty_core`, `report_throttled_core`,
/// `report_bad_dram_row` and `note_soft_error` change them.
pub open spec fn cores_after(faulty: Set<u8>, throttled: Set<u8>, reports: Seq<TelemetryReport>) -> (
    Set<u8>,
    Set<u8>,
)
    decreases reports.len(),
{
    if reports.len() == 0 {
        (faulty, throttled)
    } else {
        let (f, t) = cores_after(faulty, throttled, reports.drop_last());
        match reports.last() {
            TelemetryReport::FaultyCore(c) => (f.insert(c), t.remove(c)),
            TelemetryReport::ThrottledCore(c) => (f, t.insert(c)),
            _ => (f, t),
        }
    }
}

/// The cores named by a faulty or throttled report among `reports`.
pub open spec fn reported_cores(reports: Seq<TelemetryReport>) -> Set<u8>
    decreases reports.len(),
{
    if reports.len() == 0 {
        Set::empty()
    } else {
        match reports.last() {
            TelemetryReport::FaultyCore(c) => reported_cores(reports.drop_last()).insert(c),
            TelemetryReport::ThrottledCore(c) => reported_cores(reports.drop_last()).insert(c),
            _ => reported_cores(reports.drop_last()),
        }
    }
}

/// Starting from fresh telemetry, after any sequence of reports a core is
/// healthy exactly when no faulty or throttled report named it.
pub proof fn law_health_follows_reports(reports: Seq<TelemetryReport>, core: u8)
    ensures
        ({
            let (f, t) = cores_after(Set::empty(), Set::empty(), reports);
            (!f.contains(core) && !t.contains(core)) <==> !reported_cores(reports).contains(core)
        }),
    decreases reports.len(),
{
    if reports.len() > 0 {
        law_health_follows_reports(reports.drop_last(), core);
        match reports.last() {
            TelemetryReport::FaultyCore(c) => {
                let (f, t) = cores_after(Set::empty(), Set::empty(), reports.drop_last());
                if core != c {
                    assert(t.remove(c).contains(core) == t.contains(core));
                }
            },
            _ => {},
        }
    }
}

/// Telemetry about the physical machine: degraded cores, poisoned DRAM rows
/// and soft-error counts per program counter.
#[derive(Debug, Clone)]
pub struct HardwareTelemetry {
    faulty_cores: BTreeSet<CoreId>,
    throttled_cores: BTreeSet<CoreId>,
    bad_dram_rows: BTreeSet<u64>,
    soft_errors_by_pc: BTreeMap<u64, u64>,
}

impl HardwareTelemetry {
    /// The cores reported permanently faulty.
    pub closed spec fn faulty(&self) -> Set<u8> {
        self.faulty_cores@
    }

    /// The cores reported thermally throttled.
    pub closed spec fn throttled(&self) -> Set<u8> {
        self.throttled_cores@
    }

    /// The poisoned DRAM rows, as row indices.
    pub closed spec fn bad_rows(&self) -> Set<u64> {
        self.bad_dram_rows@
    }

    /// The soft-error count of each program counter that has seen one.
    pub closed spec fn soft_errors(&self) -> Map<u64, u64> {
        self.soft_errors_by_pc@
    }

    /// A core is usable when it is neither faulty nor throttled.
    pub open spec fn healthy(&self, core: u8) -> bool {
        !self.faulty().contains(core) && !self.throttled().contains(core)
    }

    /// The soft-error count at `pc` (zero when none was seen).
    pub open spec fn soft_count(&self, pc: u64) -> u64 {
        if self.soft_errors().contains_key(pc) {
            self.soft_errors()[pc]
        } else {
            0
        }
    }

    /// The healthy-core predicate as a spec closure.
    pub open spec fn healthy_pred(&self) -> spec_fn(u8) -> bool {
        |c: u8| self.healthy(c)
    }

    /// A telemetry snapshot with no degradation discovered yet.
    pub fn new() -> (t: Self)
        ensures
            t.faulty() == Set::<u8>::empty(),
            t.throttled() == Set::<u8>::empty(),
            t.bad_rows() == Set::<u64>::empty(),
            t.soft_errors() == Map::<u64, u64>::empty(),
    {
        HardwareTelemetry {
            faulty_cores: BTreeSet::new(),
            throttled_cores: BTreeSet::new(),
            bad_dram_rows: BTreeSet::new(),
            soft_errors_by_pc: BTreeMap::new(),
        }
    }

    /// The silicon reports `core` as permanently faulty; it stops counting
    /// as throttled.
    pub fn report_faulty_core(&mut self, core: CoreId)
        ensures
            final(self).faulty() == old(self).faulty().insert(core),
            final(self).throttled() == old(self).throttled().remove(core),
            final(self).bad_rows() == old(self).bad_rows(),
            final(self).soft_errors() == old(self).soft_errors(),
    {
        self.faulty_cores.insert(core);
        self.throttled_cores.remove(&core);
    }

    /// The silicon reports `core` as thermally throttled.
    pub fn report_throttled_core(&mut self, core: CoreId)
        ensures
            final(self).faulty() == old(self).faulty(),
            final(self).throttled() == old(self).throttled().insert(core),
            final(self).bad_rows() == old(self).bad_rows(),
            final(self).soft_errors() == old(self).soft_errors(),
    {
        self.throttled_cores.insert(core);
    }

    /// The silicon reports the DRAM row covering `address` as poisoned.
    pub fn report_bad_dram_row(&mut self, address: u64)
        ensures
            final(self).faulty() == old(self).faulty(),
            final(self).throttled() == old(self).throttled(),
            final(self).bad_rows() == old(self).bad_rows().insert(row_of(address as int) as u64),
            final(self).soft_errors() == old(self).soft_errors(),
    {
        let row = address / DRAM_ROW_GRANULE;
        self.bad_dram_rows.insert(row);
    }

    /// The soft-error trap fired at `pc`: its counter goes up by one.
    pub fn note_soft_error(&mut self, pc: u64)
        requires
            old(self).soft_count(pc) < u64::MAX,
        ensures
            final(self).faulty() == old(self).faulty(),
            final(self).throttled() == old(self).throttled(),
            final(self).bad_rows() == old(self).bad_rows(),
            final(self).soft_errors() == old(self).soft_errors().insert(
                pc,
                (old(self).soft_count(pc) + 1) as u64,
            ),
    {
        let current = self.soft_errors_at(pc);
        self.soft_errors_by_pc.insert(pc, current + 1);
    }

    /// Whether `core` is usable: neither faulty nor throttled.
    pub fn core_is_healthy(&self, core: CoreId) -> (b: bool)
        ensures
            b == self.healthy(core),
    {
        !self.faulty_cores.contains(&core) && !self.throttled_cores.contains(&core)
    }

    /// Whether a DRAM address lies on a poisoned row.
    pub fn is_bad_address(&self, address: u64) -> (b: bool)
        ensures
            b == self.bad_rows().contains(row_of(address as int) as u64),
    {
        self.bad_dram_rows.contains(&(address / DRAM_ROW_GRANULE))
    }

    /// Whether an allocation covering `[address, address + size)` touches
    /// any poisoned row: every row the span covers is looked up.
    pub fn allocation_touches_bad_row(&self, address: u64, size: u64) -> (b: bool)
        ensures
            b == touches_rows(self.bad_rows(), address, size),
    {
        let end = address.saturating_add(size);
        if end <= address {
            return false;
        }
        let first = address / DRAM_ROW_GRANULE;
        let last = (end - 1) / DRAM_ROW_GRANULE;
        let mut row = first;
        while row <= last
            invariant
                end == sat_add(address as int, size as int),
                address < end,
                first == row_of(address as int),
                last == row_of(end - 1),
                first <= row <= last + 1,
                last < u64::MAX,
                forall|r: u64| first <= r < row ==> !#[trigger] self.bad_rows().contains(r),
            decreases last + 1 - row,
        {
            if self.bad_dram_rows.contains(&row) {
                return true;
            }
            row = row + 1;
        }
        false
    }

    /// Sorts `v` ascending in place (insertion sort).
    fn sort_cores(v: &mut Vec<CoreId>)
        ensures
            is_sorted_cores(final(v)@),
            final(v)@.to_multiset() == old(v)@.to_multiset(),
    {
        broadcast use vstd::seq_lib::group_to_multiset_ensures;

        let mut sorted: Vec<CoreId> = Vec::new();
        let mut i: usize = 0;
        while i < v.len()
            invariant
                0 <= i <= v.len(),
                v@ == old(v)@,
                is_sorted_cores(sorted@),
                sorted@.to_multiset() == v@.take(i as int).to_multiset(),
            decreases v.len() - i,
        {
            let x = v[i];
            let mut pos: usize = 0;
            while pos < sorted.len() && sorted[pos] <= x
                invariant
                    0 <= pos <= sorted.len(),
                    forall|k: int| 0 <= k < pos ==> sorted@[k] <= x,
                decreases sorted.len() - pos,
            {
                pos = pos + 1;
            }
            proof {
                assert(pos < sorted.len() ==> x < sorted@[pos as int]);
            }
            let ghost before = sorted@;
            sorted.insert(pos, x);
            proof {
                assert forall|a: int, b: int| 0 <= a <= b < sorted.len() implies sorted@[a]
                    <= sorted@[b] by {
                    if a == b {
                    } else if a < pos && b > pos {
                        assert(sorted@[a] == before[a] && sorted@[b] == before[b - 1]);
                    } else if a == pos && b > pos {
                        assert(sorted@[b] == before[b - 1]);
                        assert(before[pos as int] <= before[b - 1]);
                    } else if a < pos && b == pos {
                    } else if a > pos {
                        assert(sorted@[a] == before[a - 1] && sorted@[b] == before[b - 1]);
                    } else {
                        assert(sorted@[a] == before[a] && sorted@[b] == before[b]);
                    }
                }
                assert(sorted@ == before.insert(pos as int, x));
                vstd::seq_lib::to_multiset_insert(before, pos as int, x);
                assert(v@.take(i + 1) == v@.take(i as int).push(x));
                vstd::seq_lib::to_multiset_build(v@.take(i as int), x);
            }
            i = i + 1;
        }
        proof {
            assert(v@.take(i as int) == v@);
        }
        *v = sorted;
    }

    /// The subset of `candidates` that is healthy, sorted ascending: the
    /// pool that work may be migrated into.
    pub fn healthy_cores(&self, candidates: &[CoreId]) -> (r: Vec<CoreId>)
        ensures
            is_sorted_cores(r@),
            r@.to_multiset() == candidates@.filter(self.healthy_pred()).to_multiset(),
    {
        let mut healthy: Vec<CoreId> = Vec::new();
        let mut i: usize = 0;
        while i < candidates.len()
            invariant
                0 <= i <= candidates.len(),
                healthy@ == candidates@.take(i as int).filter(self.healthy_pred()),
            decreases candidates.len() - i,
        {
            let c = candidates[i];
            proof {
                reveal(Seq::filter);
                assert(candidates@.take(i + 1).drop_last() == candidates@.take(i as int));
                assert(candidates@.take(i + 1).last() == c);
            }
            if self.core_is_healthy(c) {
                healthy.push(c);
            }
            i = i + 1;
        }
        proof {
            assert(candidates@.take(i as int) == candidates@);
        }
        Self::sort_cores(&mut healthy);
        healthy
    }

    /// Picks a core for the next thread: `preferred` if healthy, otherwise
    /// the smallest healthy candidate, otherwise `None` (everything is
    /// degraded and the host must escalate).
    pub fn pick_healthy_core(&self, preferred: CoreId, candidates: &[CoreId]) -> (r: Option<CoreId>)
        ensures
            self.healthy(preferred) ==> r == Some(preferred),
            !self.healthy(preferred) ==> match r {
                Some(c) => candidates@.contains(c) && self.healthy(c) && forall|d: u8|
                    #[trigger] candidates@.contains(d) && self.healthy(d) ==> c <= d,
                None => forall|d: u8| #[trigger] candidates@.contains(d) ==> !self.healthy(d),
            },
    {
        broadcast use vstd::seq_lib::group_to_multiset_ensures;
        broadcast use vstd::seq_lib::group_filter_ensures;

        if self.core_is_healthy(preferred) {
            return Some(preferred);
        }
        let healthy = self.healthy_cores(candidates);
        let ghost filtered = candidates@.filter(self.healthy_pred());
        proof {
            assert forall|d: u8| #[trigger] candidates@.contains(d) && self.healthy(d)
                implies healthy@.contains(d) by {
                let k = choose|k: int| 0 <= k < candidates.len() && candidates@[k] == d;
                assert((self.healthy_pred())(candidates@[k]));
                assert(filtered.contains(candidates@[k]));
                assert(filtered.to_multiset().count(d) > 0);
                assert(healthy@.to_multiset().count(d) > 0);
            }
        }
        if healthy.len() == 0 {
            proof {
                assert forall|d: u8| #[trigger] candidates@.contains(d) implies !self.healthy(d) by {
                    if self.healthy(d) {
                        assert(healthy@.contains(d));
                    }
                }
            }
            None
        } else {
            let c = healthy[0];
            proof {
                assert(healthy@.contains(c));
                assert(healthy@.to_multiset().count(c) > 0);
                assert(filtered.to_multiset().count(c) > 0);
                assert(filtered.contains(c));
                let k = choose|k: int| 0 <= k < filtered.len() && filtered[k] == c;
                assert((self.healthy_pred())(filtered[k]));
                assert(candidates@.to_multiset().count(c) > 0) by {
                    assert(filtered.to_multiset().count(c) <= candidates@.to_multiset().count(c))
                        by {
                        lemma_filter_count(candidates@, self.healthy_pred(), c);
                    }
                }
                assert forall|d: u8| #[trigger] candidates@.contains(d) && self.healthy(d)
                    implies c <= d by {
                    assert(healthy@.contains(d));
                    let k = choose|k: int| 0 <= k < healthy.len() && healthy@[k] == d;
                    assert(healthy@[0] <= healthy@[k]);
                }
            }
            Some(c)
        }
    }

    /// The first granule-aligned address at or after `start` whose whole
    /// span `[address, address + size)` avoids poisoned rows, stepping one
    /// granule at a time. The search is bounded by `ALLOC_SEARCH_LIMIT`
    /// candidates, so callers must know that a safe candidate comes before
    /// that point; `try_alloc_avoiding_bad_rows` checks it instead.
    pub fn alloc_avoiding_bad_rows(&self, start: u64, size: u64) -> (r: u64)
        requires
            aligned_up(start) <= u64::MAX,
            exists|k: nat|
                k < ALLOC_SEARCH_LIMIT && !touches_rows(
                    self.bad_rows(),
                    alloc_candidate(aligned_up(start), k) as u64,
                    size,
                ),
        ensures
            exists|k: nat|
                k < ALLOC_SEARCH_LIMIT && r == alloc_candidate(aligned_up(start), k) && forall|
                    j: nat,
                | j < k ==> touches_rows(
                    self.bad_rows(),
                    #[trigger] alloc_candidate(aligned_up(start), j) as u64,
                    size,
                ),
            !touches_rows(self.bad_rows(), r, size),
            r >= start,
    {
        let rows_before = if start % DRAM_ROW_GRANULE == 0 {
            start / DRAM_ROW_GRANULE
        } else {
            start / DRAM_ROW_GRANULE + 1
        };
        let mut candidate = rows_before * DRAM_ROW_GRANULE;
        let mut guard: u64 = 0;
        loop
            invariant
                guard < ALLOC_SEARCH_LIMIT,
                candidate == alloc_candidate(aligned_up(start), guard as nat),
                candidate >= start,
                forall|j: nat|
                    j < guard ==> touches_rows(
                        self.bad_rows(),
                        #[trigger] alloc_candidate(aligned_up(start), j) as u64,
                        size,
                    ),
                exists|k: nat|
                    k < ALLOC_SEARCH_LIMIT && !touches_rows(
                        self.bad_rows(),
                        alloc_candidate(aligned_up(start), k) as u64,
                        size,
                    ),
            decreases ALLOC_SEARCH_LIMIT - guard,
        {
            if !self.allocation_touches_bad_row(candidate, size) {
                return candidate;
            }
            candidate = candidate.saturating_add(DRAM_ROW_GRANULE);
            guard = guard + 1;
            if guard >= ALLOC_SEARCH_LIMIT {
                proof {
                    let k = choose|k: nat|
                        k < ALLOC_SEARCH_LIMIT && !touches_rows(
                            self.bad_rows(),
                            alloc_candidate(aligned_up(start), k) as u64,
                            size,
                        );
                    assert(touches_rows(
                        self.bad_rows(),
                        alloc_candidate(aligned_up(start), k) as u64,
                        size,
                    ));
                }
            }
        }
    }

    /// The first safe granule-aligned address at or after `start`, as
    /// `alloc_avoiding_bad_rows` finds it, or `None` when none of the first
    /// `ALLOC_SEARCH_LIMIT` candidates is safe (or `start` cannot be
    /// aligned up within `u64`).
    pub fn try_alloc_avoiding_bad_rows(&self, start: u64, size: u64) -> (r: Option<u64>)
        ensures
            r matches Some(a) ==> {
                &&& aligned_up(start) <= u64::MAX
                &&& exists|k: nat|
                    k < ALLOC_SEARCH_LIMIT && a == alloc_candidate(aligned_up(start), k) && forall|
                        j: nat,
                    | j < k ==> touches_rows(
                        self.bad_rows(),
                        #[trigger] alloc_candidate(aligned_up(start), j) as u64,
                        size,
                    )
                &&& !touches_rows(self.bad_rows(), a, size)
                &&& a >= start
            },
            r is None ==> aligned_up(start) > u64::MAX || forall|k: nat|
                k < ALLOC_SEARCH_LIMIT ==> touches_rows(
                    self.bad_rows(),
                    #[trigger] alloc_candidate(aligned_up(start), k) as u64,
                    size,
                ),
    {
        let rows_before = if start % DRAM_ROW_GRANULE == 0 {
            start / DRAM_ROW_GRANULE
        } else {
            start / DRAM_ROW_GRANULE + 1
        };
        if rows_before > u64::MAX / DRAM_ROW_GRANULE {
            return None;
        }
        let mut candidate = rows_before * DRAM_ROW_GRANULE;
        let mut guard: u64 = 0;
        while guard < ALLOC_SEARCH_LIMIT
            invariant
                guard <= ALLOC_SEARCH_LIMIT,
                aligned_up(start) <= u64::MAX,
                candidate == alloc_candidate(aligned_up(start), guard as nat),
                candidate >= start,
                forall|j: nat|
                    j < guard ==> touches_rows(
                        self.bad_rows(),
                        #[trigger] alloc_candidate(aligned_up(start), j) as u64,
                        size,
                    ),
            decreases ALLOC_SEARCH_LIMIT - guard,
        {
            if !self.allocation_touches_bad_row(candidate, size) {
                return Some(candidate);
            }
            candidate = candidate.saturating_add(DRAM_ROW_GRANULE);
            guard = guard + 1;
        }
        None
    }

    /// The number of soft errors observed at `pc`.
    pub fn soft_errors_at(&self, pc: u64) -> (n: u64)
        ensures
            n == self.soft_count(pc),
    {
        match self.soft_errors_by_pc.get(&pc) {
            Some(n) => *n,
            None => 0,
        }
    }

    /// Every program counter that has seen soft errors with its count,
    /// ascending by program counter.
    pub fn soft_error_summary(&self) -> (r: Vec<(u64, u64)>)
        ensures
            r.len() == self.soft_errors().dom().len(),
            forall|i: int, j: int| 0 <= i < j < r.len() ==> r@[i].0 < r@[j].0,
            forall|i: int|
                0 <= i < r.len() ==> self.soft_errors().contains_key(#[trigger] r@[i].0)
                    && self.soft_errors()[r@[i].0] == r@[i].1,
            forall|pc: u64| #[trigger]
                self.soft_errors().contains_key(pc) ==> exists|i: int|
                    0 <= i < r.len() && r@[i].0 == pc,
    {
        let mut summary: Vec<(u64, u64)> = Vec::new();
        let entries = self.soft_errors_by_pc.iter();
        let ghost s = vstd::std_specs::iter::IteratorSpec::remaining(&entries);
        proof {
            lemma_pcs_increasing(entries);
        }
        for entry in it: entries
            invariant
                it.seq() == s,
                summary@ == s.take(it.index() as int).unref(),
        {
            let (pc, count) = entry;
            summary.push((*pc, *count));
            assert(summary@ =~= s.take(it.index() + 1).unref());
        }
        proof {
            assert(summary@ =~= s.unref());
            let m = self.soft_errors_by_pc@;
            assert forall|pc: u64| #[trigger] m.contains_key(pc) implies exists|i: int|
                0 <= i < summary.len() && summary@[i].0 == pc by {
                assert(s.contains((&pc, &m[pc])));
                let i = choose|i: int| 0 <= i < s.len() && s[i] == (&pc, &m[pc]);
                assert(summary@[i].0 == pc);
            }
            assert forall|i: int|
                0 <= i < summary.len() implies m.contains_key(#[trigger] summary@[i].0)
                    && m[summary@[i].0] == summary@[i].1 by {
                assert(m.contains_key(*s[i].0));
            }
        }
        summary
    }

    /// Whether the soft-error threshold for `pc` has been reached; a zero
    /// threshold is never reached.
    pub fn soft_errors_exceed(&self, pc: u64, threshold: u64) -> (b: bool)
        ensures
            b == (threshold > 0 && self.soft_count(pc) >= threshold),
    {
        threshold > 0 && self.soft_errors_at(pc) >= threshold
    }
}

/// Filtering never adds occurrences of a value.
pub proof fn lemma_filter_count(s: Seq<u8>, pred: spec_fn(u8) -> bool, c: u8)
    ensures
        s.filter(pred).to_multiset().count(c) <= s.to_multiset().count(c),
    decreases s.len(),
{
    broadcast use vstd::seq_lib::group_to_multiset_ensures;

    reveal(Seq::filter);
    if s.len() > 0 {
        lemma_filter_count(s.drop_last(), pred, c);
        assert(s == s.drop_last().push(s.last()));
    }
}

/// The keys of an in-order walk over a map keyed by `u64` are strictly
/// increasing.
pub proof fn lemma_pcs_increasing(entries: std::collections::btree_map::Iter<u64, u64>)
    requires
        vstd::std_specs::btree::increasing_seq(
            vstd::std_specs::iter::IteratorSpec::remaining(&entries).map_values(
                |kv: (&u64, &u64)| *kv.0,
            ),
        ),
    ensures
        forall|i: int, j: int|
            0 <= i < j < vstd::std_specs::iter::IteratorSpec::remaining(&entries).len() ==> *(
            vstd::std_specs::iter::IteratorSpec::remaining(&entries)[i].0) < *(
            vstd::std_specs::iter::IteratorSpec::remaining(&entries)[j].0),
{
    let t = vstd::std_specs::iter::IteratorSpec::remaining(&entries).map_values(
        |kv: (&u64, &u64)| *kv.0,
    );
    assert(vstd::laws_cmp::obeys_cmp::<u64>());
    let r = vstd::std_specs::iter::IteratorSpec::remaining(&entries);
    assert forall|i: int, j: int| 0 <= i < j < r.len() implies *(r[i].0) < *(r[j].0) by {
        assert(vstd::std_specs::cmp::OrdSpec::cmp_spec(&t[i], &t[j]) is Less);
        assert(t[i] == *(r[i].0));
        assert(t[j] == *(r[j].0));
    }
}

} // verus!

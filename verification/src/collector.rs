//! The fault event collector: it queues fault signals from hardware traps,
//! guard calls and expired TTL probes, keeps the TTL watchdog over
//! supervised modules, and runs the memory-leak monotonicity test over the
//! last `W` memory snapshots of each module.
//!
//! Time is a plain number of nanoseconds on the host's monotonic clock; the
//! host reads the clock and hands the reading in.
use std::collections::HashMap;
use vstd::prelude::*;

verus! {

/// The source that produced a fault event.
#[derive(Debug, Clone, Copy, PartialEq, Eq, Structural)]
pub enum FaultSource {
    /// A hardware trap was mapped to a site.
    HardwareTrap,
    /// A guard call dispatched to a recovery stub.
    GuardCall,
    /// A TTL probe expired.
    TtlProbe,
    /// The memory monotonicity test synthesized a leak fault.
    MonotonicMemoryLeak,
}

/// A fault event ready for the engine.
#[derive(Debug, Clone, Copy, PartialEq, Eq, Structural)]
pub struct FaultEvent {
    /// The site the fault belongs to.
    pub site_id: u64,
    /// The numeric fault class tag.
    pub fault_class: u32,
    /// Where the fault was observed.
    pub source: FaultSource,
    /// When it was observed, in nanoseconds on the host's monotonic clock.
    pub timestamp: u64,
}

/// The memory-leak fault tag.
pub const FAULT_CLASS_MEMORY_LEAK: u32 = 5;

/// The default monotonicity window `W`.
pub const DEFAULT_MEMORY_WINDOW: usize = 16;

/// The TTL probe state of one module.
#[derive(Debug, Clone, Copy, PartialEq, Eq, Structural)]
pub struct TtlProbe {
    /// How long (nanoseconds) the module may stay silent.
    pub timeout: u64,
    /// When the module last responded (nanoseconds).
    pub last_response: u64,
}

/// The time elapsed from `earlier` to `later`, saturating at zero.
pub open spec fn elapsed(later: u64, earlier: u64) -> int {
    if later >= earlier {
        later - earlier
    } else {
        0
    }
}

/// The probe's deadline has passed at `now`.
pub open spec fn probe_expired(p: TtlProbe, now: u64) -> bool {
    elapsed(now, p.last_response) > p.timeout
}

/// A watchdog over module health.
#[derive(Debug, Clone)]
pub struct TtlWatch {
    probes: HashMap<u64, TtlProbe>,
}

impl TtlWatch {
    /// The probe of each watched module.
    pub closed spec fn probes(&self) -> Map<u64, TtlProbe> {
        self.probes@
    }

    /// A watchdog with no module under watch.
    pub fn new() -> (w: Self)
        ensures
            w.probes() == Map::<u64, TtlProbe>::empty(),
    {
        TtlWatch { probes: HashMap::new() }
    }

    /// Starts watching `site_id` from `now`: it has `timeout` nanoseconds to
    /// respond.
    pub fn watch(&mut self, site_id: u64, timeout: u64, now: u64)
        ensures
            final(self).probes() == old(self).probes().insert(
                site_id,
                (TtlProbe { timeout, last_response: now }),
            ),
    {
        self.probes.insert(site_id, TtlProbe { timeout, last_response: now });
    }

    /// Records a heartbeat of `site_id` at `now`. Returns `true` if the
    /// module had gone silent past its deadline; an unwatched site returns
    /// `false` and changes nothing.
    pub fn acknowledge(&mut self, site_id: u64, now: u64) -> (late: bool)
        ensures
            !old(self).probes().contains_key(site_id) ==> !late && final(self).probes() == old(self).probes(),
            old(self).probes().contains_key(site_id) ==> {
                let p = old(self).probes()[site_id];
                &&& late == probe_expired(p, now)
                &&& final(self).probes() == old(self).probes().insert(
                    site_id,
                    (TtlProbe { timeout: p.timeout, last_response: now }),
                )
            },
    {
        match self.probes.get(&site_id) {
            None => false,
            Some(probe) => {
                let p = *probe;
                let was_late = now.saturating_sub(p.last_response) > p.timeout;
                self.probes.insert(site_id, TtlProbe { timeout: p.timeout, last_response: now });
                was_late
            },
        }
    }

    /// Every watched module whose deadline has passed at `now`, each once,
    /// in the map's iteration order.
    pub fn tick(&self, now: u64) -> (dead: Vec<u64>)
        ensures
            dead@.no_duplicates(),
            forall|i: int|
                0 <= i < dead.len() ==> self.probes().contains_key(#[trigger] dead@[i])
                    && probe_expired(self.probes()[dead@[i]], now),
            forall|site: u64|
                #[trigger] self.probes().contains_key(site) && probe_expired(
                    self.probes()[site],
                    now,
                ) ==> dead@.contains(site),
    {
        let mut dead: Vec<u64> = Vec::new();
        let entries = self.probes.iter();
        let ghost s = vstd::std_specs::iter::IteratorSpec::remaining(&entries);
        for entry in it: entries
            invariant
                it.seq() == s,
                s.no_duplicates(),
                s == vstd::std_specs::iter::IteratorSpec::remaining(
                    &vstd::std_specs::hash::spec_hash_map_iter(&self.probes),
                ),
                dead@ == expired_sites(s.take(it.index() as int), now),
        {
            let (site, probe) = entry;
            if now.saturating_sub(probe.last_response) > probe.timeout {
                dead.push(*site);
            }
            proof {
                assert(s.take(it.index() + 1).drop_last() == s.take(it.index() as int));
            }
        }
        proof {
            assert(s.take(s.len() as int) == s);
            lemma_expired_sites(s, self.probes@, now);
        }
        dead
    }

    /// The watched site ids, in the map's iteration order.
    pub fn watched(&self) -> (sites: Vec<u64>)
        ensures
            sites@.no_duplicates(),
            sites@.to_set() == self.probes().dom(),
    {
        let mut sites: Vec<u64> = Vec::new();
        let entries = self.probes.iter();
        let ghost s = vstd::std_specs::iter::IteratorSpec::remaining(&entries);
        for entry in it: entries
            invariant
                it.seq() == s,
                s.no_duplicates(),
                s == vstd::std_specs::iter::IteratorSpec::remaining(
                    &vstd::std_specs::hash::spec_hash_map_iter(&self.probes),
                ),
                sites@ == s.take(it.index() as int).map_values(|e: (&u64, &TtlProbe)| *e.0),
        {
            let (site, _probe) = entry;
            sites.push(*site);
            proof {
                assert(sites@ =~= s.take(it.index() + 1).map_values(
                    |e: (&u64, &TtlProbe)| *e.0,
                ));
            }
        }
        proof {
            assert(s.take(s.len() as int) == s);
            lemma_watched_sites(s, self.probes@);
        }
        sites
    }

    /// Stops watching `site_id`.
    pub fn unwatch(&mut self, site_id: u64)
        ensures
            final(self).probes() == old(self).probes().remove(site_id),
    {
        self.probes.remove(&site_id);
    }
}

impl Default for TtlWatch {
    fn default() -> (w: Self)
        ensures
            w.probes() == Map::<u64, TtlProbe>::empty(),
    {
        TtlWatch::new()
    }
}

/// The sites of the expired entries of a map walk, in walk order.
pub open spec fn expired_sites(s: Seq<(&u64, &TtlProbe)>, now: u64) -> Seq<u64>
    decreases s.len(),
{
    if s.len() == 0 {
        Seq::empty()
    } else {
        let rest = expired_sites(s.drop_last(), now);
        if probe_expired(*s.last().1, now) {
            rest.push(*s.last().0)
        } else {
            rest
        }
    }
}

/// Some entry of the walk has key `x` and an expired probe.
pub open spec fn expired_in_walk(s: Seq<(&u64, &TtlProbe)>, x: u64, now: u64) -> bool {
    exists|j: int| 0 <= j < s.len() && *s[j].0 == x && probe_expired(*s[j].1, now)
}

/// What the expired sites of a full walk over the probes are.
pub proof fn lemma_expired_sites(s: Seq<(&u64, &TtlProbe)>, m: Map<u64, TtlProbe>, now: u64)
    requires
        s.no_duplicates(),
        forall|i: int| 0 <= i < s.len() ==> m.contains_key(*s[i].0) && m[*s[i].0] == *s[i].1,
        forall|k: u64| #[trigger] m.contains_key(k) ==> s.contains((&k, &m[k])),
    ensures
        expired_sites(s, now).no_duplicates(),
        forall|i: int|
            0 <= i < expired_sites(s, now).len() ==> m.contains_key(
                #[trigger] expired_sites(s, now)[i],
            ) && probe_expired(m[expired_sites(s, now)[i]], now),
        forall|site: u64|
            #[trigger] m.contains_key(site) && probe_expired(m[site], now) ==> expired_sites(
                s,
                now,
            ).contains(site),
{
    lemma_expired_sites_prefix(s, m, now);
    assert forall|site: u64|
        #[trigger] m.contains_key(site) && probe_expired(m[site], now) implies expired_sites(
        s,
        now,
    ).contains(site) by {
        assert(s.contains((&site, &m[site])));
        let i = choose|i: int| 0 <= i < s.len() && s[i] == (&site, &m[site]);
        lemma_expired_sites_contains(s, now, i);
    }
}

/// Each expired site of a walk comes from an entry of the walk, and no
/// site appears twice when the keys of the walk are distinct.
pub proof fn lemma_expired_sites_prefix(s: Seq<(&u64, &TtlProbe)>, m: Map<u64, TtlProbe>, now: u64)
    requires
        s.no_duplicates(),
        forall|i: int| 0 <= i < s.len() ==> m.contains_key(*s[i].0) && m[*s[i].0] == *s[i].1,
    ensures
        expired_sites(s, now).no_duplicates(),
        forall|i: int|
            0 <= i < expired_sites(s, now).len() ==> expired_in_walk(
                s,
                #[trigger] expired_sites(s, now)[i],
                now,
            ),
        forall|i: int|
            0 <= i < expired_sites(s, now).len() ==> m.contains_key(
                #[trigger] expired_sites(s, now)[i],
            ) && probe_expired(m[expired_sites(s, now)[i]], now),
    decreases s.len(),
{
    if s.len() > 0 {
        let t = s.drop_last();
        assert forall|i: int| 0 <= i < t.len() implies m.contains_key(*t[i].0) && m[*t[i].0]
            == *t[i].1 by {
            assert(t[i] == s[i]);
        }
        assert(t.no_duplicates()) by {
            assert forall|a: int, b: int| 0 <= a < t.len() && 0 <= b < t.len() && a != b implies t[a]
                != t[b] by {
                assert(t[a] == s[a] && t[b] == s[b]);
            }
        }
        lemma_expired_sites_prefix(t, m, now);
        let rest = expired_sites(t, now);
        let last = s.last();
        if probe_expired(*last.1, now) {
            assert forall|i: int| 0 <= i < rest.len() implies rest[i] != *last.0 by {
                assert(expired_in_walk(t, rest[i], now));
                let j = choose|j: int|
                    0 <= j < t.len() && *t[j].0 == rest[i] && probe_expired(*t[j].1, now);
                assert(s[j] == t[j]);
                assert(m[*s[j].0] == *s[j].1);
                assert(m[*last.0] == *last.1);
                if rest[i] == *last.0 {
                    assert(s[j] == s[s.len() - 1]);
                }
            }
            let r = rest.push(*last.0);
            assert(expired_sites(s, now) == r);
            assert forall|i: int| 0 <= i < expired_sites(s, now).len() implies expired_in_walk(
                s,
                #[trigger] expired_sites(s, now)[i],
                now,
            ) by {
                if i < rest.len() {
                    assert(expired_in_walk(t, rest[i], now));
                    let j = choose|j: int|
                        0 <= j < t.len() && *t[j].0 == rest[i] && probe_expired(*t[j].1, now);
                    assert(s[j] == t[j]);
                    assert(s[j] == t[j]);
                    assert(*s[j].0 == expired_sites(s, now)[i]);
                } else {
                    assert(s[s.len() - 1] == last);
                    assert(*s[s.len() - 1].0 == expired_sites(s, now)[i]);
                }
            }
            assert forall|i: int| 0 <= i < r.len() implies m.contains_key(#[trigger] r[i])
                && probe_expired(m[r[i]], now) by {
                if i < rest.len() {
                    assert(r[i] == rest[i]);
                } else {
                    assert(m[*s[s.len() - 1].0] == *s[s.len() - 1].1);
                }
            }
        } else {
            assert(expired_sites(s, now) == rest);
            assert forall|i: int| 0 <= i < expired_sites(s, now).len() implies expired_in_walk(
                s,
                #[trigger] expired_sites(s, now)[i],
                now,
            ) by {
                let j = choose|j: int|
                    0 <= j < t.len() && *t[j].0 == rest[i] && probe_expired(*t[j].1, now);
                assert(s[j] == t[j]);
                assert(*s[j].0 == expired_sites(s, now)[i]);
            }
        }
    } else {
        assert(expired_sites(s, now).len() == 0);
    }
}

/// An expired entry of a walk shows up among its expired sites.
pub proof fn lemma_expired_sites_contains(s: Seq<(&u64, &TtlProbe)>, now: u64, i: int)
    requires
        0 <= i < s.len(),
        probe_expired(*s[i].1, now),
    ensures
        expired_sites(s, now).contains(*s[i].0),
    decreases s.len(),
{
    if i == s.len() - 1 {
        let rest = expired_sites(s.drop_last(), now);
        assert(expired_sites(s, now) == rest.push(*s[i].0));
        assert(expired_sites(s, now)[rest.len() as int] == *s[i].0);
    } else {
        let t = s.drop_last();
        assert(t[i] == s[i]);
        lemma_expired_sites_contains(t, now, i);
        let rest = expired_sites(t, now);
        let k = choose|k: int| 0 <= k < rest.len() && rest[k] == *s[i].0;
        if probe_expired(*s.last().1, now) {
            assert(expired_sites(s, now)[k] == rest[k]);
        }
    }
}

/// The keys of a full walk over a map are its domain, each once.
pub proof fn lemma_watched_sites(s: Seq<(&u64, &TtlProbe)>, m: Map<u64, TtlProbe>)
    requires
        s.no_duplicates(),
        forall|i: int| 0 <= i < s.len() ==> m.contains_key(*s[i].0) && m[*s[i].0] == *s[i].1,
        forall|k: u64| #[trigger] m.contains_key(k) ==> s.contains((&k, &m[k])),
    ensures
        s.map_values(|e: (&u64, &TtlProbe)| *e.0).no_duplicates(),
        s.map_values(|e: (&u64, &TtlProbe)| *e.0).to_set() == m.dom(),
{
    let keys = s.map_values(|e: (&u64, &TtlProbe)| *e.0);
    assert forall|a: int, b: int| 0 <= a < keys.len() && 0 <= b < keys.len() && a != b implies keys[a]
        != keys[b] by {
        if keys[a] == keys[b] {
            assert(m[*s[a].0] == *s[a].1);
            assert(m[*s[b].0] == *s[b].1);
            assert(s[a] == s[b]);
        }
    }
    assert forall|k: u64| keys.to_set().contains(k) <==> m.dom().contains(k) by {
        if keys.to_set().contains(k) {
            let i = choose|i: int| 0 <= i < keys.len() && keys[i] == k;
            assert(m.contains_key(*s[i].0));
        }
        if m.dom().contains(k) {
            assert(s.contains((&k, &m[k])));
            let i = choose|i: int| 0 <= i < s.len() && s[i] == (&k, &m[k]);
            assert(keys[i] == k);
        }
    }
    assert(keys.to_set() =~= m.dom());
}

/// The snapshot series of a module after recording `usage`: the oldest
/// snapshot drops out once the window is full.
pub open spec fn next_series(series: Seq<u64>, usage: u64, window: nat) -> Seq<u64> {
    if series.len() >= window && series.len() > 0 {
        series.drop_first().push(usage)
    } else {
        series.push(usage)
    }
}

/// The series never decreases from one snapshot to the next.
pub open spec fn non_decreasing(s: Seq<u64>) -> bool {
    forall|i: int| 0 <= i < s.len() - 1 ==> #[trigger] s[i] <= s[i + 1]
}

/// A series passes the monotonicity test exactly when no snapshot is
/// smaller than an earlier one: equal neighbours count as not decreasing,
/// so a plateau does not hide a leak.
pub proof fn law_leak_test_is_never_decreasing(s: Seq<u64>)
    ensures
        non_decreasing(s) <==> forall|i: int, j: int| 0 <= i <= j < s.len() ==> s[i] <= s[j],
{
    if non_decreasing(s) {
        assert forall|i: int, j: int| 0 <= i <= j < s.len() implies s[i] <= s[j] by {
            lemma_non_decreasing_span(s, i, j);
        }
    }
    if forall|i: int, j: int| 0 <= i <= j < s.len() ==> s[i] <= s[j] {
        assert forall|i: int| 0 <= i < s.len() - 1 implies #[trigger] s[i] <= s[i + 1] by {
            assert(s[i] <= s[i + 1]);
        }
    }
}

/// Step by step, a series that never decreases keeps every later snapshot
/// at least as large as an earlier one.
proof fn lemma_non_decreasing_span(s: Seq<u64>, i: int, j: int)
    requires
        non_decreasing(s),
        0 <= i <= j < s.len(),
    ensures
        s[i] <= s[j],
    decreases j - i,
{
    if i < j {
        lemma_non_decreasing_span(s, i, j - 1);
        assert(s[j - 1] <= s[(j - 1) + 1]);
    }
}

/// The leak event the monotonicity test synthesizes.
pub open spec fn leak_event(site_id: u64, now: u64) -> FaultEvent {
    FaultEvent {
        site_id,
        fault_class: FAULT_CLASS_MEMORY_LEAK,
        source: FaultSource::MonotonicMemoryLeak,
        timestamp: now,
    }
}

/// Collects fault events from all sources, holds the TTL watchdog, and runs
/// the memory monotonicity test.
pub struct FaultEventCollector {
    queue: Vec<FaultEvent>,
    watchdog: TtlWatch,
    memory: HashMap<u64, Vec<u64>>,
    window: usize,
}

impl FaultEventCollector {
    /// The pending events, oldest first.
    pub closed spec fn queue(&self) -> Seq<FaultEvent> {
        self.queue@
    }

    /// The probes of the watchdog.
    pub closed spec fn probes(&self) -> Map<u64, TtlProbe> {
        self.watchdog.probes()
    }

    /// The recent memory snapshots of each tracked module.
    pub closed spec fn memory(&self) -> Map<u64, Seq<u64>> {
        self.memory@.map_values(|v: Vec<u64>| v@)
    }

    /// The monotonicity window `W`.
    pub closed spec fn window(&self) -> nat {
        self.window as nat
    }

    /// A collector with the default monotonicity window.
    pub fn new() -> (c: Self)
        ensures
            c.queue() == Seq::<FaultEvent>::empty(),
            c.probes() == Map::<u64, TtlProbe>::empty(),
            c.memory() == Map::<u64, Seq<u64>>::empty(),
            c.window() == DEFAULT_MEMORY_WINDOW,
    {
        let c = FaultEventCollector {
            queue: Vec::new(),
            watchdog: TtlWatch::new(),
            memory: HashMap::new(),
            window: DEFAULT_MEMORY_WINDOW,
        };
        assert(c.memory() =~= Map::<u64, Seq<u64>>::empty());
        c
    }

    /// A collector with monotonicity window `window` (at least one).
    pub fn with_window(window: usize) -> (c: Self)
        ensures
            c.queue() == Seq::<FaultEvent>::empty(),
            c.probes() == Map::<u64, TtlProbe>::empty(),
            c.memory() == Map::<u64, Seq<u64>>::empty(),
            c.window() == if window >= 1 {
                window as nat
            } else {
                1
            },
    {
        let w = if window >= 1 {
            window
        } else {
            1
        };
        let c = FaultEventCollector {
            queue: Vec::new(),
            watchdog: TtlWatch::new(),
            memory: HashMap::new(),
            window: w,
        };
        assert(c.memory() =~= Map::<u64, Seq<u64>>::empty());
        c
    }

    /// Queues a hardware-trap fault observed at `now`.
    pub fn record_hardware_trap(&mut self, site_id: u64, fault_class: u32, now: u64)
        ensures
            final(self).queue() == old(self).queue().push(
                (FaultEvent { site_id, fault_class, source: FaultSource::HardwareTrap, timestamp: now }),
            ),
            final(self).probes() == old(self).probes(),
            final(self).memory() == old(self).memory(),
            final(self).window() == old(self).window(),
    {
        self.queue.push(
            FaultEvent { site_id, fault_class, source: FaultSource::HardwareTrap, timestamp: now },
        );
    }

    /// Queues a guard-call fault observed at `now`.
    pub fn record_guard_fault(&mut self, site_id: u64, fault_class: u32, now: u64)
        ensures
            final(self).queue() == old(self).queue().push(
                (FaultEvent { site_id, fault_class, source: FaultSource::GuardCall, timestamp: now }),
            ),
            final(self).probes() == old(self).probes(),
            final(self).memory() == old(self).memory(),
            final(self).window() == old(self).window(),
    {
        self.queue.push(
            FaultEvent { site_id, fault_class, source: FaultSource::GuardCall, timestamp: now },
        );
    }

    /// The number of pending events.
    pub fn len(&self) -> (n: usize)
        ensures
            n == self.queue().len(),
    {
        self.queue.len()
    }

    /// Whether no event is pending.
    pub fn is_empty(&self) -> (b: bool)
        ensures
            b == (self.queue().len() == 0),
    {
        self.queue.len() == 0
    }

    /// Takes every pending event, oldest first, leaving the queue empty.
    pub fn drain(&mut self) -> (events: Vec<FaultEvent>)
        ensures
            events@ == old(self).queue(),
            final(self).queue() == Seq::<FaultEvent>::empty(),
            final(self).probes() == old(self).probes(),
            final(self).memory() == old(self).memory(),
            final(self).window() == old(self).window(),
    {
        let mut events: Vec<FaultEvent> = Vec::new();
        std::mem::swap(&mut events, &mut self.queue);
        events
    }

    /// Starts watching module `site_id` from `now` with deadline `timeout`.
    pub fn watch(&mut self, site_id: u64, timeout: u64, now: u64)
        ensures
            final(self).probes() == old(self).probes().insert(
                site_id,
                (TtlProbe { timeout, last_response: now }),
            ),
            final(self).queue() == old(self).queue(),
            final(self).memory() == old(self).memory(),
            final(self).window() == old(self).window(),
    {
        self.watchdog.watch(site_id, timeout, now);
    }

    /// A heartbeat of `site_id` arrived at `now`; `true` if it was late.
    pub fn heartbeat(&mut self, site_id: u64, now: u64) -> (late: bool)
        ensures
            !old(self).probes().contains_key(site_id) ==> !late && final(self).probes() == old(self).probes(),
            old(self).probes().contains_key(site_id) ==> {
                let p = old(self).probes()[site_id];
                &&& late == probe_expired(p, now)
                &&& final(self).probes() == old(self).probes().insert(
                    site_id,
                    (TtlProbe { timeout: p.timeout, last_response: now }),
                )
            },
            final(self).queue() == old(self).queue(),
            final(self).memory() == old(self).memory(),
            final(self).window() == old(self).window(),
    {
        self.watchdog.acknowledge(site_id, now)
    }

    /// Stops watching `site_id`.
    pub fn unwatch(&mut self, site_id: u64)
        ensures
            final(self).probes() == old(self).probes().remove(site_id),
            final(self).queue() == old(self).queue(),
            final(self).memory() == old(self).memory(),
            final(self).window() == old(self).window(),
    {
        self.watchdog.unwatch(site_id);
    }

    /// Queues a timeout fault, stamped `now`, for every watched module whose
    /// deadline has passed, and returns how many were queued.
    pub fn ttl_tick(&mut self, now: u64) -> (n: usize)
        ensures
            n == final(self).queue().len() - old(self).queue().len(),
            final(self).queue().take(old(self).queue().len() as int) == old(self).queue(),
            forall|i: int|
                old(self).queue().len() <= i < final(self).queue().len() ==> {
                    let e = #[trigger] final(self).queue()[i];
                    &&& e.fault_class == crate::supervisor::TIMEOUT_FAULT_TAG
                    &&& e.source == FaultSource::TtlProbe
                    &&& e.timestamp == now
                    &&& old(self).probes().contains_key(e.site_id)
                    &&& probe_expired(old(self).probes()[e.site_id], now)
                },
            forall|site: u64|
                #[trigger] old(self).probes().contains_key(site) && probe_expired(
                    old(self).probes()[site],
                    now,
                ) ==> exists|i: int|
                    old(self).queue().len() <= i < final(self).queue().len() && final(self).queue()[i].site_id == site,
            final(self).probes() == old(self).probes(),
            final(self).memory() == old(self).memory(),
            final(self).window() == old(self).window(),
    {
        let dead = self.watchdog.tick(now);
        let start = self.queue.len();
        let mut i: usize = 0;
        while i < dead.len()
            invariant
                0 <= i <= dead.len(),
                start == old(self).queue.len(),
                self.queue@.len() == start + i,
                self.queue@.take(start as int) == old(self).queue@,
                forall|k: int|
                    0 <= k < i ==> self.queue@[start + k] == (FaultEvent {
                        site_id: dead@[k],
                        fault_class: crate::supervisor::TIMEOUT_FAULT_TAG,
                        source: FaultSource::TtlProbe,
                        timestamp: now,
                    }),
                self.watchdog == old(self).watchdog,
                self.memory == old(self).memory,
                self.window == old(self).window,
            decreases dead.len() - i,
        {
            self.queue.push(
                FaultEvent {
                    site_id: dead[i],
                    fault_class: crate::supervisor::timeout_fault_tag(),
                    source: FaultSource::TtlProbe,
                    timestamp: now,
                },
            );
            i = i + 1;
            proof {
                assert(self.queue@.take(start as int) =~= old(self).queue@);
            }
        }
        proof {
            assert forall|i: int|
                old(self).queue().len() <= i < self.queue().len() implies {
                    let e = #[trigger] self.queue()[i];
                    &&& e.fault_class == crate::supervisor::TIMEOUT_FAULT_TAG
                    &&& e.source == FaultSource::TtlProbe
                    &&& e.timestamp == now
                    &&& old(self).probes().contains_key(e.site_id)
                    &&& probe_expired(old(self).probes()[e.site_id], now)
                } by {
                let k = i - start;
                assert(self.queue@[start + k].site_id == dead@[k]);
            }
            assert forall|site: u64|
                #[trigger] old(self).probes().contains_key(site) && probe_expired(
                    old(self).probes()[site],
                    now,
                ) implies exists|j: int|
                old(self).queue().len() <= j < self.queue().len() && self.queue()[j].site_id
                    == site by {
                assert(dead@.contains(site));
                let k = choose|k: int| 0 <= k < dead.len() && dead@[k] == site;
                assert(self.queue@[start + k].site_id == site);
            }
        }
        dead.len()
    }

    /// The modules under surveillance.
    pub fn watched(&self) -> (sites: Vec<u64>)
        ensures
            sites@.no_duplicates(),
            sites@.to_set() == self.probes().dom(),
    {
        self.watchdog.watched()
    }

    /// Records a memory snapshot of `site_id` taken at `now` and runs the
    /// monotonicity test over the last `W` snapshots: when the window is
    /// full and never decreases, a leak event is queued and returned.
    pub fn record_memory_snapshot(&mut self, site_id: u64, usage: u64, now: u64) -> (r: Option<
        FaultEvent,
    >)
        ensures
            ({
                let before = if old(self).memory().contains_key(site_id) {
                    old(self).memory()[site_id]
                } else {
                    Seq::<u64>::empty()
                };
                let after = next_series(before, usage, old(self).window());
                &&& final(self).memory() == old(self).memory().insert(site_id, after)
                &&& r is Some <==> (after.len() >= old(self).window() && non_decreasing(after))
                &&& r is Some ==> r == Some(leak_event(site_id, now)) && final(self).queue() == old(self).queue().push(leak_event(site_id, now))
                &&& r is None ==> final(self).queue() == old(self).queue()
            }),
            final(self).probes() == old(self).probes(),
            final(self).window() == old(self).window(),
    {
        let ghost before = if old(self).memory().contains_key(site_id) {
            old(self).memory()[site_id]
        } else {
            Seq::<u64>::empty()
        };
        let mut series: Vec<u64> = match self.memory.get(&site_id) {
            Some(s) => s.clone(),
            None => Vec::new(),
        };
        assert(series@ == before);
        if series.len() >= self.window && series.len() > 0 {
            series.remove(0);
        }
        series.push(usage);
        proof {
            if before.len() >= self.window && before.len() > 0 {
                assert(series@ =~= before.drop_first().push(usage));
            } else {
                assert(series@ =~= before.push(usage));
            }
        }
        let ghost after = series@;
        assert(after == next_series(before, usage, self.window as nat));
        let full = series.len() >= self.window;
        let mut monotone = true;
        let n = series.len();
        let mut i: usize = 1;
        while i < n
            invariant
                1 <= i <= n,
                n == series.len(),
                monotone == forall|k: int| 1 <= k < i ==> #[trigger] series@[k - 1] <= series@[k],
            decreases n - i,
        {
            if series[i - 1] > series[i] {
                monotone = false;
            }
            i = i + 1;
        }
        proof {
            if monotone {
                assert forall|k: int| 0 <= k < after.len() - 1 implies #[trigger] after[k]
                    <= after[k + 1] by {
                    assert(series@[(k + 1) - 1] <= series@[k + 1]);
                }
            } else {
                let k = choose|k: int| 1 <= k < n && !(#[trigger] series@[k - 1] <= series@[k]);
                assert(!(after[k - 1] <= after[(k - 1) + 1]));
            }
        }
        self.memory.insert(site_id, series);
        proof {
            assert(self.memory() =~= old(self).memory().insert(site_id, after));
        }
        if full && monotone {
            let event = FaultEvent {
                site_id,
                fault_class: FAULT_CLASS_MEMORY_LEAK,
                source: FaultSource::MonotonicMemoryLeak,
                timestamp: now,
            };
            self.queue.push(event);
            Some(event)
        } else {
            None
        }
    }

    /// How many modules the monotonicity test is tracking.
    pub fn tracked_memory_sites(&self) -> (n: usize)
        ensures
            n == self.memory().dom().len(),
    {
        proof {
            assert(self.memory().dom() =~= self.memory@.dom());
        }
        self.memory.len()
    }
}

} // verus!

//! Healing deficiency reports: the structured diagnostic emitted when the
//! dominant recovery strategy at a site fails too often, and the sliding
//! window of recent recovery outcomes the decision is made over.
use vstd::prelude::*;

verus! {

/// A structured healing deficiency report.
#[derive(Debug, Clone, PartialEq, Eq)]
pub struct HealingDeficiencyReport {
    /// The site, as a hex string.
    pub site_id: String,
    /// The module the site belongs to.
    pub module: String,
    /// The dominant fault class at the site.
    pub fault_class: String,
    /// The success rate of the dominant strategy, in percent.
    pub dominant_strategy_success_rate: u64,
    /// The window the rate was measured over, in fault events.
    pub window_size: u64,
    /// A suggested action for the compiler or engineer.
    pub suggested_action: String,
}

/// The JSON text of a report: the six fields in order, two-space
/// indented, strings quoted as they are.
pub open spec fn report_json(r: HealingDeficiencyReport) -> Seq<char> {
    "{\n  \"site_id\": \""@ + r.site_id@ + "\",\n  \"module\": \""@ + r.module@
        + "\",\n  \"fault_class\": \""@ + r.fault_class@
        + "\",\n  \"dominant_strategy_success_rate\": "@ + crate::text::decimal(
        r.dominant_strategy_success_rate as nat,
    ) + ",\n  \"window_size\": "@ + crate::text::decimal(r.window_size as nat)
        + ",\n  \"suggested_action\": \""@ + r.suggested_action@ + "\"\n}"@
}

impl HealingDeficiencyReport {
    /// Serializes the report to JSON for logging.
    pub fn to_json(&self) -> (s: String)
        ensures
            s@ == report_json(*self),
    {
        let mut s = String::from_str("{\n  \"site_id\": \"");
        s.append(self.site_id.as_str());
        s.append("\",\n  \"module\": \"");
        s.append(self.module.as_str());
        s.append("\",\n  \"fault_class\": \"");
        s.append(self.fault_class.as_str());
        s.append("\",\n  \"dominant_strategy_success_rate\": ");
        let rate = crate::text::u64_decimal(self.dominant_strategy_success_rate);
        s.append(rate.as_str());
        s.append(",\n  \"window_size\": ");
        let window = crate::text::u64_decimal(self.window_size);
        s.append(window.as_str());
        s.append(",\n  \"suggested_action\": \"");
        s.append(self.suggested_action.as_str());
        s.append("\"\n}");
        s
    }
}

/// The default detection window, in fault events.
pub const DEFAULT_WINDOW: usize = 100;

/// The number of events of `site` in `s`.
pub open spec fn count_site(s: Seq<(u64, Seq<char>, bool)>, site: u64) -> nat
    decreases s.len(),
{
    if s.len() == 0 {
        0
    } else {
        count_site(s.drop_last(), site) + if s.last().0 == site {
            1nat
        } else {
            0nat
        }
    }
}

/// The number of events of `site` with strategy `name` in `s`, and how
/// many of them succeeded.
pub open spec fn count_strategy(s: Seq<(u64, Seq<char>, bool)>, site: u64, name: Seq<char>) -> (
    nat,
    nat,
)
    decreases s.len(),
{
    if s.len() == 0 {
        (0, 0)
    } else {
        let prev = count_strategy(s.drop_last(), site, name);
        let e = s.last();
        if e.0 == site && e.1 == name {
            (prev.0 + 1, prev.1 + if e.2 {
                1nat
            } else {
                0nat
            })
        } else {
            prev
        }
    }
}

/// Counts never exceed the number of events.
pub proof fn lemma_counts_bounded(s: Seq<(u64, Seq<char>, bool)>, site: u64, name: Seq<char>)
    ensures
        count_strategy(s, site, name).1 <= count_strategy(s, site, name).0 <= s.len(),
        count_site(s, site) <= s.len(),
    decreases s.len(),
{
    if s.len() > 0 {
        lemma_counts_bounded(s.drop_last(), site, name);
    }
}

/// The window after recording an event: the oldest event drops out once
/// the window is over-full.
pub open spec fn next_window(
    recent: Seq<(u64, Seq<char>, bool)>,
    event: (u64, Seq<char>, bool),
    size: nat,
) -> Seq<(u64, Seq<char>, bool)> {
    let pushed = recent.push(event);
    if pushed.len() > size {
        pushed.drop_first()
    } else {
        pushed
    }
}

/// An outcome by its texts.
pub open spec fn event_view(e: (u64, String, bool)) -> (u64, Seq<char>, bool) {
    (e.0, e.1@, e.2)
}

/// The sliding window of recent recovery outcomes (site, strategy,
/// success) that deficiency detection decides over, with the sites that
/// already reported.
pub struct DeficiencyWindow {
    window_size: usize,
    recent: Vec<(u64, String, bool)>,
    reported: Vec<u64>,
}

impl DeficiencyWindow {
    /// The window size.
    pub closed spec fn size(&self) -> nat {
        self.window_size as nat
    }

    /// The recent outcomes, oldest first.
    pub closed spec fn recent(&self) -> Seq<(u64, Seq<char>, bool)> {
        self.recent@.map_values(|e: (u64, String, bool)| event_view(e))
    }

    /// The sites that reported since their last re-arm.
    pub closed spec fn reported(&self) -> Seq<u64> {
        self.reported@
    }

    /// The window never holds more than its size, and counts fit in `u32`.
    pub closed spec fn wf(&self) -> bool {
        &&& self.recent@.len() <= self.window_size
        &&& self.window_size <= u32::MAX
    }

    /// An empty window of `window_size` events.
    pub fn new(window_size: usize) -> (w: Self)
        requires
            window_size <= u32::MAX,
        ensures
            w.wf(),
            w.size() == window_size,
            w.recent().len() == 0,
            w.reported().len() == 0,
    {
        let w = DeficiencyWindow { window_size, recent: Vec::new(), reported: Vec::new() };
        assert(w.recent() =~= Seq::<(u64, Seq<char>, bool)>::empty());
        w
    }

    /// Counts the events of `site` with the strategy of event `i`.
    fn count_of(&self, site_id: u64, i: usize) -> (r: (u32, u32))
        requires
            self.wf(),
            i < self.recent@.len(),
        ensures
            r.0 == count_strategy(self.recent(), site_id, self.recent()[i as int].1).0,
            r.1 == count_strategy(self.recent(), site_id, self.recent()[i as int].1).1,
    {
        let name = &self.recent[i].1;
        let ghost nm = self.recent()[i as int].1;
        let mut attempts: u32 = 0;
        let mut successes: u32 = 0;
        let mut k: usize = 0;
        while k < self.recent.len()
            invariant
                0 <= k <= self.recent@.len(),
                self.wf(),
                name@ == nm,
                attempts == count_strategy(self.recent().take(k as int), site_id, nm).0,
                successes == count_strategy(self.recent().take(k as int), site_id, nm).1,
            decreases self.recent@.len() - k,
        {
            proof {
                assert(self.recent().take(k + 1).drop_last() =~= self.recent().take(k as int));
                assert(self.recent().take(k + 1).last() == self.recent()[k as int]);
                lemma_counts_bounded(self.recent().take(k as int), site_id, nm);
            }
            let e = &self.recent[k];
            if e.0 == site_id && e.1 == *name {
                attempts = attempts + 1;
                if e.2 {
                    successes = successes + 1;
                }
            }
            k = k + 1;
        }
        proof {
            assert(self.recent().take(k as int) =~= self.recent());
        }
        (attempts, successes)
    }

    /// Records one outcome at `site_id` for `strategy`. Once the window is
    /// full and every event in it belongs to this site, returns the attempts
    /// and successes of the dominant strategy: the most attempted one, the
    /// first in the window among equals.
    pub fn observe(&mut self, site_id: u64, strategy: &str, succeeded: bool) -> (r: Option<
        (u32, u32),
    >)
        requires
            old(self).wf(),
        ensures
            final(self).wf(),
            final(self).size() == old(self).size(),
            final(self).reported() == old(self).reported(),
            final(self).recent() == next_window(
                old(self).recent(),
                (site_id, strategy@, succeeded),
                old(self).size(),
            ),
            r is Some <==> final(self).recent().len() >= final(self).size() && count_site(
                final(self).recent(),
                site_id,
            ) >= final(self).size() && count_site(final(self).recent(), site_id) > 0,
            r is Some ==> exists|i: int|
                0 <= i < final(self).recent().len() && final(self).recent()[i].0 == site_id && ({
                    let c = count_strategy(final(self).recent(), site_id, final(self).recent()[i].1);
                    &&& r.unwrap().0 == c.0
                    &&& r.unwrap().1 == c.1
                    &&& forall|j: int|
                        0 <= j < final(self).recent().len() && final(self).recent()[j].0 == site_id
                            ==> count_strategy(
                            final(self).recent(),
                            site_id,
                            #[trigger] final(self).recent()[j].1,
                        ).0 <= c.0
                }),
    {
        let ghost before = self.recent();
        self.recent.push((site_id, String::from_str(strategy), succeeded));
        proof {
            assert(self.recent() =~= before.push((site_id, strategy@, succeeded)));
        }
        if self.recent.len() > self.window_size {
            let ghost pushed = self.recent();
            self.recent.remove(0);
            proof {
                assert(self.recent() =~= pushed.drop_first());
            }
        }
        if self.recent.len() < self.window_size {
            return None;
        }
        let mut n: usize = 0;
        let mut i: usize = 0;
        while i < self.recent.len()
            invariant
                0 <= i <= self.recent@.len(),
                self.wf(),
                n == count_site(self.recent().take(i as int), site_id),
            decreases self.recent@.len() - i,
        {
            proof {
                assert(self.recent().take(i + 1).drop_last() =~= self.recent().take(i as int));
                assert(self.recent().take(i + 1).last() == self.recent()[i as int]);
                lemma_counts_bounded(self.recent().take(i as int), site_id, Seq::empty());
            }
            if self.recent[i].0 == site_id {
                n = n + 1;
            }
            i = i + 1;
        }
        proof {
            assert(self.recent().take(i as int) =~= self.recent());
        }
        if n < self.window_size || n == 0 {
            return None;
        }
        let mut found = false;
        let mut best: (u32, u32) = (0, 0);
        let mut best_i: usize = 0;
        let mut k: usize = 0;
        while k < self.recent.len()
            invariant
                0 <= k <= self.recent@.len(),
                self.wf(),
                found ==> best_i < k && self.recent()[best_i as int].0 == site_id && best.0
                    == count_strategy(self.recent(), site_id, self.recent()[best_i as int].1).0
                    && best.1 == count_strategy(
                    self.recent(),
                    site_id,
                    self.recent()[best_i as int].1,
                ).1,
                found ==> forall|j: int|
                    0 <= j < k && self.recent()[j].0 == site_id ==> count_strategy(
                        self.recent(),
                        site_id,
                        #[trigger] self.recent()[j].1,
                    ).0 <= best.0,
                !found ==> forall|j: int| 0 <= j < k ==> self.recent()[j].0 != site_id,
            decreases self.recent@.len() - k,
        {
            if self.recent[k].0 == site_id {
                let c = self.count_of(site_id, k);
                if !found || c.0 > best.0 {
                    best = c;
                    best_i = k;
                    found = true;
                }
            }
            k = k + 1;
        }
        proof {
            if !found {
                lemma_no_site_events(self.recent(), site_id);
            }
        }
        Some(best)
    }

    /// Whether `site_id` already reported since its last re-arm.
    pub fn is_reported(&self, site_id: u64) -> (b: bool)
        ensures
            b == self.reported().contains(site_id),
    {
        let mut i: usize = 0;
        while i < self.reported.len()
            invariant
                0 <= i <= self.reported@.len(),
                forall|j: int| 0 <= j < i ==> self.reported@[j] != site_id,
            decreases self.reported@.len() - i,
        {
            if self.reported[i] == site_id {
                return true;
            }
            i = i + 1;
        }
        false
    }

    /// Records that `site_id` reported.
    pub fn mark_reported(&mut self, site_id: u64)
        requires
            old(self).wf(),
        ensures
            final(self).wf(),
            final(self).size() == old(self).size(),
            final(self).recent() == old(self).recent(),
            final(self).reported() == old(self).reported().push(site_id),
    {
        self.reported.push(site_id);
    }

    /// Decides whether `site_id` reports now: only when its dominant
    /// strategy is below the threshold (`below_threshold`) and it has not
    /// reported since its last re-arm; a site that reports is marked.
    pub fn report_once(&mut self, site_id: u64, below_threshold: bool) -> (fire: bool)
        requires
            old(self).wf(),
        ensures
            final(self).wf(),
            fire == (below_threshold && !old(self).reported().contains(site_id)),
            final(self).size() == old(self).size(),
            final(self).recent() == old(self).recent(),
            final(self).reported() == if fire {
                old(self).reported().push(site_id)
            } else {
                old(self).reported()
            },
    {
        if below_threshold && !self.is_reported(site_id) {
            self.mark_reported(site_id);
            true
        } else {
            false
        }
    }

    /// Re-arms `site_id`: it may report again, and its buffered events are
    /// dropped so that a fresh full window is needed first.
    pub fn rearm(&mut self, site_id: u64)
        requires
            old(self).wf(),
        ensures
            final(self).wf(),
            final(self).size() == old(self).size(),
            final(self).reported() == sites_without(old(self).reported(), site_id),
            final(self).recent() == events_without(old(self).recent(), site_id),
    {
        let mut kept: Vec<u64> = Vec::new();
        let mut i: usize = 0;
        while i < self.reported.len()
            invariant
                0 <= i <= self.reported@.len(),
                kept@ == sites_without(self.reported@.take(i as int), site_id),
            decreases self.reported@.len() - i,
        {
            proof {
                assert(self.reported@.take(i + 1).drop_last() =~= self.reported@.take(i as int));
            }
            if self.reported[i] != site_id {
                kept.push(self.reported[i]);
            }
            i = i + 1;
        }
        proof {
            assert(self.reported@.take(i as int) =~= self.reported@);
        }
        let mut events: Vec<(u64, String, bool)> = Vec::new();
        let mut k: usize = 0;
        while k < self.recent.len()
            invariant
                0 <= k <= self.recent@.len(),
                self.wf(),
                events@.len() <= k,
                events@.map_values(|e: (u64, String, bool)| event_view(e)) == events_without(
                    self.recent().take(k as int),
                    site_id,
                ),
            decreases self.recent@.len() - k,
        {
            proof {
                assert(self.recent().take(k + 1).drop_last() =~= self.recent().take(k as int));
                assert(self.recent().take(k + 1).last() == self.recent()[k as int]);
            }
            let e = &self.recent[k];
            if e.0 != site_id {
                let ghost before = events@;
                events.push((e.0, e.1.clone(), e.2));
                proof {
                    assert(events@.map_values(|e: (u64, String, bool)| event_view(e)) =~= before.map_values(
                        |e: (u64, String, bool)| event_view(e),
                    ).push(self.recent()[k as int]));
                }
            }
            k = k + 1;
        }
        proof {
            assert(self.recent().take(k as int) =~= self.recent());
        }
        self.reported = kept;
        self.recent = events;
    }
}

/// The sites of `s` other than `site`, in order.
pub open spec fn sites_without(s: Seq<u64>, site: u64) -> Seq<u64>
    decreases s.len(),
{
    if s.len() == 0 {
        s
    } else if s.last() == site {
        sites_without(s.drop_last(), site)
    } else {
        sites_without(s.drop_last(), site).push(s.last())
    }
}

/// The events of `s` not at `site`, in order.
pub open spec fn events_without(s: Seq<(u64, Seq<char>, bool)>, site: u64) -> Seq<
    (u64, Seq<char>, bool),
>
    decreases s.len(),
{
    if s.len() == 0 {
        s
    } else if s.last().0 == site {
        events_without(s.drop_last(), site)
    } else {
        events_without(s.drop_last(), site).push(s.last())
    }
}

/// A window without an event of `site` counts none for it.
pub proof fn lemma_no_site_events(s: Seq<(u64, Seq<char>, bool)>, site: u64)
    requires
        forall|j: int| 0 <= j < s.len() ==> s[j].0 != site,
    ensures
        count_site(s, site) == 0,
    decreases s.len(),
{
    if s.len() > 0 {
        lemma_no_site_events(s.drop_last(), site);
    }
}

/// Re-arming a site forgets exactly its report: the site may report
/// again, every other site's report stands, and none of its events remain,
/// so a fresh full window of its events is needed before it can report.
pub proof fn law_rearm_forgets_the_site(
    reported: Seq<u64>,
    recent: Seq<(u64, Seq<char>, bool)>,
    site: u64,
)
    ensures
        !sites_without(reported, site).contains(site),
        forall|other: u64|
            other != site ==> (#[trigger] sites_without(reported, site).contains(other)
                <==> reported.contains(other)),
        count_site(events_without(recent, site), site) == 0,
{
    lemma_sites_without(reported, site, site);
    assert forall|other: u64|
        other != site implies (#[trigger] sites_without(reported, site).contains(other)
        <==> reported.contains(other)) by {
        lemma_sites_without(reported, site, other);
    }
    lemma_events_without_site(recent, site);
}

/// `sites_without(s, site)` holds exactly the other sites of `s`.
pub proof fn lemma_sites_without(s: Seq<u64>, site: u64, other: u64)
    ensures
        sites_without(s, site).contains(other) <==> (other != site && s.contains(other)),
    decreases s.len(),
{
    if s.len() > 0 {
        let init = s.drop_last();
        lemma_sites_without(init, site, other);
        let rest = sites_without(init, site);
        // `s` holds `other` exactly when `init` or its last element does.
        if s.contains(other) {
            let k = choose|k: int| 0 <= k < s.len() && s[k] == other;
            if k < s.len() - 1 {
                assert(init[k] == other);
            }
        }
        if init.contains(other) {
            let k = choose|k: int| 0 <= k < init.len() && init[k] == other;
            assert(s[k] == other);
        }
        if s.last() != site {
            let pushed = rest.push(s.last());
            if pushed.contains(other) {
                let k = choose|k: int| 0 <= k < pushed.len() && pushed[k] == other;
                if k < rest.len() {
                    assert(rest[k] == other);
                }
            }
            if rest.contains(other) {
                let k = choose|k: int| 0 <= k < rest.len() && rest[k] == other;
                assert(pushed[k] == other);
            }
            if other == s.last() {
                assert(pushed[rest.len() as int] == other);
                assert(s[s.len() - 1] == other);
            }
        }
    }
}

/// `events_without` leaves no event of the site.
pub proof fn lemma_events_without_site(s: Seq<(u64, Seq<char>, bool)>, site: u64)
    ensures
        forall|j: int| 0 <= j < events_without(s, site).len() ==> events_without(s, site)[j].0 != site,
        count_site(events_without(s, site), site) == 0,
    decreases s.len(),
{
    if s.len() > 0 {
        lemma_events_without_site(s.drop_last(), site);
        let rest = events_without(s.drop_last(), site);
        if s.last().0 != site {
            assert forall|j: int| 0 <= j < rest.push(s.last()).len() implies rest.push(s.last())[j].0 != site by {
                if j < rest.len() {
                    assert(rest.push(s.last())[j] == rest[j]);
                }
            }
        }
    }
    lemma_no_site_events_of(events_without(s, site), site);
}

/// A sequence without events of `site` counts none for it.
proof fn lemma_no_site_events_of(s: Seq<(u64, Seq<char>, bool)>, site: u64)
    requires
        forall|j: int| 0 <= j < s.len() ==> s[j].0 != site,
    ensures
        count_site(s, site) == 0,
{
    lemma_no_site_events(s, site);
}

} // verus!

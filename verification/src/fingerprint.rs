//! A site's fault fingerprint: how many faults it saw and of which classes,
//! how its recoveries went, and the latencies of the most recent ones. The
//! estimates built on these counts (the mean time to recovery and the
//! per-strategy success posteriors) are kept by the host. Times are
//! nanoseconds.
use std::collections::HashMap;
use vstd::prelude::*;

verus! {

/// A single observation of a fault at a guarded site.
#[derive(Debug, Clone, Copy, PartialEq, Eq, Hash, Structural)]
pub struct FaultEvent {
    /// The site.
    pub site_id: u64,
    /// The fault class tag.
    pub fault_class: u32,
    /// When it was observed (nanoseconds on the host's monotonic clock).
    pub timestamp: u64,
}

/// The outcome of one recovery attempt.
#[derive(Debug, Clone)]
pub struct RecoveryOutcome {
    /// The strategy's display name.
    pub strategy: String,
    /// How long the attempt took, in nanoseconds.
    pub latency: u64,
    /// Whether it succeeded.
    pub succeeded: bool,
}

/// How many recent healing latencies a fingerprint keeps.
pub const RING_BUFFER_CAPACITY: usize = 16;

/// The counts of a site's fingerprint.
pub struct FaultCounts {
    site_id: u64,
    fault_count: u64,
    success_count: u64,
    fail_count: u64,
    fault_histogram: HashMap<u32, u64>,
    /// The most recent healing latencies, newest first.
    healing_latencies: Vec<u64>,
}

impl FaultCounts {
    /// The faults observed per class.
    pub closed spec fn histogram(&self) -> Map<u32, u64> {
        self.fault_histogram@
    }

    /// The kept latencies, newest first.
    pub closed spec fn latencies(&self) -> Seq<u64> {
        self.healing_latencies@
    }

    /// The site.
    pub closed spec fn site(&self) -> u64 {
        self.site_id
    }

    /// Faults seen.
    pub closed spec fn faults(&self) -> u64 {
        self.fault_count
    }

    /// Successful recoveries.
    pub closed spec fn successes(&self) -> u64 {
        self.success_count
    }

    /// Failed recoveries.
    pub closed spec fn failures(&self) -> u64 {
        self.fail_count
    }

    /// At most `RING_BUFFER_CAPACITY` latencies are kept.
    pub open spec fn wf(&self) -> bool {
        self.latencies().len() <= RING_BUFFER_CAPACITY
    }

    /// A fresh fingerprint for `site_id`: nothing seen yet.
    pub fn new(site_id: u64) -> (f: Self)
        ensures
            f.wf(),
            f.site() == site_id,
            f.faults() == 0,
            f.successes() == 0,
            f.failures() == 0,
            f.histogram() == Map::<u32, u64>::empty(),
            f.latencies() == Seq::<u64>::empty(),
    {
        FaultCounts {
            site_id,
            fault_count: 0,
            success_count: 0,
            fail_count: 0,
            fault_histogram: HashMap::new(),
            healing_latencies: Vec::new(),
        }
    }

    /// Counts one fault of class `fault_class`.
    pub fn record_fault(&mut self, fault_class: u32)
        requires
            old(self).faults() < u64::MAX,
            old(self).histogram().contains_key(fault_class) ==> old(self).histogram()[fault_class]
                < u64::MAX,
        ensures
            final(self).faults() == old(self).faults() + 1,
            final(self).histogram() == old(self).histogram().insert(
                fault_class,
                if old(self).histogram().contains_key(fault_class) {
                    (old(self).histogram()[fault_class] + 1) as u64
                } else {
                    1
                },
            ),
            final(self).site() == old(self).site(),
            final(self).successes() == old(self).successes(),
            final(self).failures() == old(self).failures(),
            final(self).latencies() == old(self).latencies(),
    {
        self.fault_count = self.fault_count + 1;
        let seen = match self.fault_histogram.get(&fault_class) {
            Some(n) => *n,
            None => 0,
        };
        self.fault_histogram.insert(fault_class, seen + 1);
    }

    /// Counts one recovery attempt and keeps its latency, dropping the
    /// oldest kept one when the ring is full.
    pub fn record_recovery(&mut self, succeeded: bool, latency: u64)
        requires
            old(self).wf(),
            succeeded ==> old(self).successes() < u64::MAX,
            !succeeded ==> old(self).failures() < u64::MAX,
        ensures
            final(self).wf(),
            final(self).successes() == old(self).successes() + if succeeded {
                1int
            } else {
                0int
            },
            final(self).failures() == old(self).failures() + if succeeded {
                0int
            } else {
                1int
            },
            final(self).latencies() == seq![latency] + if old(self).latencies().len()
                == RING_BUFFER_CAPACITY {
                old(self).latencies().drop_last()
            } else {
                old(self).latencies()
            },
            final(self).site() == old(self).site(),
            final(self).faults() == old(self).faults(),
            final(self).histogram() == old(self).histogram(),
    {
        if succeeded {
            self.success_count = self.success_count + 1;
        } else {
            self.fail_count = self.fail_count + 1;
        }
        if self.healing_latencies.len() == RING_BUFFER_CAPACITY {
            self.healing_latencies.pop();
        }
        let ghost kept = self.healing_latencies@;
        self.healing_latencies.insert(0, latency);
        assert(self.healing_latencies@ =~= seq![latency] + kept);
    }

    /// The site.
    pub fn site_id(&self) -> (r: u64)
        ensures
            r == self.site(),
    {
        self.site_id
    }

    /// Faults seen.
    pub fn fault_count(&self) -> (r: u64)
        ensures
            r == self.faults(),
    {
        self.fault_count
    }

    /// Successful recoveries.
    pub fn success_count(&self) -> (r: u64)
        ensures
            r == self.successes(),
    {
        self.success_count
    }

    /// Failed recoveries.
    pub fn fail_count(&self) -> (r: u64)
        ensures
            r == self.failures(),
    {
        self.fail_count
    }

    /// How many faults of class `fault_class` were seen.
    pub fn faults_of(&self, fault_class: u32) -> (r: u64)
        ensures
            r == if self.histogram().contains_key(fault_class) {
                self.histogram()[fault_class]
            } else {
                0
            },
    {
        match self.fault_histogram.get(&fault_class) {
            Some(n) => *n,
            None => 0,
        }
    }

    /// The kept latencies, newest first.
    pub fn healing_latencies(&self) -> (r: &[u64])
        ensures
            r@ == self.latencies(),
    {
        self.healing_latencies.as_slice()
    }
}

/// The latency ring keeps the most recent latencies, newest first: after
/// recording `k` more, the first `k` kept are those, in reverse order of
/// recording.
pub proof fn law_newest_latency_first(before: Seq<u64>, latency: u64)
    requires
        before.len() <= RING_BUFFER_CAPACITY,
    ensures
        ({
            let after = seq![latency] + if before.len() == RING_BUFFER_CAPACITY {
                before.drop_last()
            } else {
                before
            };
            &&& after[0] == latency
            &&& after.len() <= RING_BUFFER_CAPACITY
            &&& after.len() == if before.len() == RING_BUFFER_CAPACITY {
                before.len()
            } else {
                before.len() + 1
            }
            &&& forall|i: int| 0 <= i < after.len() - 1 ==> after[i + 1] == before[i]
        }),
{
}

} // verus!

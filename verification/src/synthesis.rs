//! SMT-driven repair-value synthesis as a search over candidates: the
//! synthesizer proposes the candidates `1, 2, 3, ...` in turn, the caller
//! asks the solver whether the postcondition holds of each, and the search
//! reports the first verified value or that its budget ran out.
//!
//! The solver call is the caller's; this module owns every decision.
use vstd::prelude::*;

verus! {

/// The outcome of asking the synthesizer for a repaired value.
#[derive(Debug, Clone, Copy, PartialEq, Eq, Structural)]
pub enum SynthesisOutcome {
    /// The solver verified the postcondition for `value`.
    Verified { value: i64 },
    /// Every candidate within the budget failed verification.
    DomainExhausted { candidates_tried: u64 },
    /// Synthesis is disabled; nothing was attempted.
    Disabled,
}

/// The default search budget.
pub const DEFAULT_CANDIDATE_BUDGET: u64 = 1024;

/// A synthesizer of repair values with an enable flag and a search budget.
#[derive(Debug, Clone, Copy)]
pub struct PatchSynthesizer {
    enabled: bool,
    max_candidates: u64,
}

/// The `k`-th candidate (from zero): `1 + k`, saturating at `i64::MAX`.
pub open spec fn candidate_at(k: int) -> i64 {
    if 1 + k > i64::MAX {
        i64::MAX
    } else {
        (1 + k) as i64
    }
}

/// What the search asks of the caller next, or how it ended.
#[derive(Debug, Clone, Copy, PartialEq, Eq, Structural)]
pub enum SearchStep {
    /// Ask the solver whether the postcondition holds of `candidate`, and
    /// report the answer.
    Check { candidate: i64 },
    /// The search is over.
    Finished(SynthesisOutcome),
}

/// A running candidate search.
#[derive(Debug, Clone, Copy)]
pub struct SynthesisSearch {
    budget: u64,
    tried: u64,
    candidate: i64,
    finished: bool,
}

impl SynthesisSearch {
    /// How many candidates have been reported as failing so far.
    pub closed spec fn tried(&self) -> nat {
        self.tried as nat
    }

    /// The search budget.
    pub closed spec fn budget(&self) -> nat {
        self.budget as nat
    }

    /// Whether the search has finished.
    pub closed spec fn finished(&self) -> bool {
        self.finished
    }

    /// The search is consistent: the pending candidate follows from the
    /// number of failures, and a running search is within its budget.
    pub closed spec fn wf(&self) -> bool {
        &&& self.candidate == candidate_at(self.tried as int)
        &&& self.budget >= 1
        &&& !self.finished ==> self.tried < self.budget
    }

    /// Reports the solver's answer for the pending candidate: a satisfied
    /// postcondition verifies it; otherwise the next candidate is asked for,
    /// until the budget is spent.
    pub fn report(&mut self, satisfied: bool) -> (step: SearchStep)
        requires
            old(self).wf(),
            !old(self).finished(),
        ensures
            final(self).wf(),
            final(self).budget() == old(self).budget(),
            satisfied ==> step == SearchStep::Finished(
                SynthesisOutcome::Verified { value: candidate_at(old(self).tried() as int) },
            ) && final(self).finished() && final(self).tried() == old(self).tried(),
            !satisfied ==> final(self).tried() == old(self).tried() + 1,
            !satisfied && old(self).tried() + 1 < old(self).budget() ==> step == (SearchStep::Check {
                candidate: candidate_at(old(self).tried() + 1int),
            }) && !final(self).finished(),
            !satisfied && old(self).tried() + 1 >= old(self).budget() ==> step
                == SearchStep::Finished(
                SynthesisOutcome::DomainExhausted { candidates_tried: old(self).budget() as u64 },
            ) && final(self).finished(),
    {
        if satisfied {
            self.finished = true;
            return SearchStep::Finished(SynthesisOutcome::Verified { value: self.candidate });
        }
        self.tried = self.tried + 1;
        self.candidate = if self.candidate < i64::MAX {
            self.candidate + 1
        } else {
            i64::MAX
        };
        if self.tried < self.budget {
            SearchStep::Check { candidate: self.candidate }
        } else {
            self.finished = true;
            SearchStep::Finished(SynthesisOutcome::DomainExhausted { candidates_tried: self.tried })
        }
    }
}

impl PatchSynthesizer {
    /// Whether synthesis is enabled.
    pub closed spec fn enabled(&self) -> bool {
        self.enabled
    }

    /// The search budget (at least one).
    pub closed spec fn budget(&self) -> u64 {
        self.max_candidates
    }

    /// An enabled synthesizer with the default budget.
    pub fn new() -> (s: Self)
        ensures
            s.enabled(),
            s.budget() == DEFAULT_CANDIDATE_BUDGET,
    {
        PatchSynthesizer::new_with_options(true, DEFAULT_CANDIDATE_BUDGET)
    }

    /// A synthesizer with the given enable flag and budget; a zero budget
    /// is raised to one.
    pub fn new_with_options(enabled: bool, max_candidates: u64) -> (s: Self)
        ensures
            s.enabled() == enabled,
            s.budget() == if max_candidates >= 1 {
                max_candidates
            } else {
                1
            },
    {
        PatchSynthesizer {
            enabled,
            max_candidates: if max_candidates >= 1 {
                max_candidates
            } else {
                1
            },
        }
    }

    /// Whether this synthesizer will consult the solver.
    pub fn is_enabled(&self) -> (b: bool)
        ensures
            b == self.enabled(),
    {
        self.enabled
    }

    /// The maximum number of candidates examined per search.
    pub fn candidate_budget(&self) -> (n: u64)
        ensures
            n == self.budget(),
    {
        self.max_candidates
    }

    /// Starts a search: a disabled synthesizer finishes at once, an enabled
    /// one asks for the first candidate, `1`.
    pub fn begin(&self) -> (r: (SynthesisSearch, SearchStep))
        requires
            self.budget() >= 1,
        ensures
            r.0.wf(),
            r.0.budget() == self.budget(),
            r.0.tried() == 0,
            !self.enabled() ==> r.1 == SearchStep::Finished(SynthesisOutcome::Disabled)
                && r.0.finished(),
            self.enabled() ==> r.1 == (SearchStep::Check { candidate: 1 }) && !r.0.finished(),
    {
        let search = SynthesisSearch {
            budget: self.max_candidates,
            tried: 0,
            candidate: 1,
            finished: !self.enabled,
        };
        if !self.enabled {
            (search, SearchStep::Finished(SynthesisOutcome::Disabled))
        } else {
            (search, SearchStep::Check { candidate: 1 })
        }
    }
}

impl Default for PatchSynthesizer {
    fn default() -> (s: Self)
        ensures
            s.enabled(),
            s.budget() == DEFAULT_CANDIDATE_BUDGET,
    {
        PatchSynthesizer::new()
    }
}

} // verus!

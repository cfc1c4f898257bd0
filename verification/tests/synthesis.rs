use codira::synthesis::{PatchSynthesizer, SearchStep, SynthesisOutcome};

fn run(synth: &PatchSynthesizer, holds: impl Fn(i64) -> bool) -> SynthesisOutcome {
    let (mut search, mut step) = synth.begin();
    loop {
        match step {
            SearchStep::Finished(outcome) => return outcome,
            SearchStep::Check { candidate } => step = search.report(holds(candidate)),
        }
    }
}

#[test]
fn synthesizes_smallest_positive_divisor() {
    let synth = PatchSynthesizer::new();
    assert_eq!(run(&synth, |d| d > 0), SynthesisOutcome::Verified { value: 1 });
}

#[test]
fn rejects_domain_without_satisfying_value() {
    let synth = PatchSynthesizer::new_with_options(true, 8);
    assert_eq!(
        run(&synth, |d| d < 0),
        SynthesisOutcome::DomainExhausted { candidates_tried: 8 }
    );
}

#[test]
fn disabled_synthesizer_refuses_to_guess() {
    let synth = PatchSynthesizer::new_with_options(false, 8);
    assert_eq!(run(&synth, |d| d > 0), SynthesisOutcome::Disabled);
    assert!(!synth.is_enabled());
}

#[test]
fn finds_value_when_zero_is_allowed() {
    let synth = PatchSynthesizer::new_with_options(true, 32);
    assert_eq!(
        run(&synth, |d| (0..=10).contains(&d)),
        SynthesisOutcome::Verified { value: 1 }
    );
}

#[test]
fn search_walks_candidates_in_order() {
    let synth = PatchSynthesizer::new_with_options(true, 16);
    assert_eq!(run(&synth, |d| d * d > 50), SynthesisOutcome::Verified { value: 8 });
    assert_eq!(PatchSynthesizer::new_with_options(true, 0).candidate_budget(), 1);
    assert_eq!(PatchSynthesizer::default().candidate_budget(), 1024);
}

//! The decisions of the adaptive healing engine: the histogram tag of a
//! fault class, the backoff before a retry, the order in which a site's
//! strategies are tried once the ranker has picked a favourite, and whether
//! a strategy is feasible at a site.
use crate::contract::{
    FaultClass, HealingContract, HealingStrategy, HealingTier, strategy_name, strategy_tier, fault_name,
};
use vstd::prelude::*;

verus! {

/// An executed recovery strategy's result.
#[derive(Debug, Clone)]
pub enum HealingResult {
    /// The strategy produced a value that satisfied the postcondition.
    Recovered(Vec<u8>),
    /// The strategy produced a value that failed the postcondition.
    PostconditionFailed,
    /// The strategy could not be attempted at this site.
    NotApplicable,
    /// Every strategy failed, or none applied: the fault is escalated.
    Escalated(FaultClass),
}

/// The histogram tag of a fault class.
pub open spec fn tag_of(f: FaultClass) -> u32 {
    match f {
        FaultClass::NullDereference => 0,
        FaultClass::OutOfBounds => 1,
        FaultClass::Timeout => 2,
        FaultClass::ConnectionRefused => 3,
        FaultClass::OutOfMemory => 4,
        FaultClass::MemoryLeak => 5,
        FaultClass::AccessViolation => 6,
        FaultClass::ArithmeticFault => 7,
        FaultClass::Custom(_) => 255,
    }
}

/// Maps a fault class to its stable histogram tag.
pub fn fault_tag(fault: &FaultClass) -> (t: u32)
    ensures
        t == tag_of(*fault),
{
    match fault {
        FaultClass::NullDereference => 0,
        FaultClass::OutOfBounds => 1,
        FaultClass::Timeout => 2,
        FaultClass::ConnectionRefused => 3,
        FaultClass::OutOfMemory => 4,
        FaultClass::MemoryLeak => 5,
        FaultClass::AccessViolation => 6,
        FaultClass::ArithmeticFault => 7,
        FaultClass::Custom(_) => 255,
    }
}

/// Two to the power `k`.
pub open spec fn pow2(k: nat) -> nat
    decreases k,
{
    if k == 0 {
        1
    } else {
        2 * pow2((k - 1) as nat)
    }
}

/// The backoff before retry attempt `attempts`, in microseconds: 50 µs
/// doubling per attempt, capped at 5 ms.
pub open spec fn backoff_micros(attempts: u32) -> nat {
    let doubled = 50 * pow2(attempts as nat);
    if doubled <= 5000 {
        doubled
    } else {
        5000
    }
}

/// The exponential backoff before retry attempt `attempts`, in
/// microseconds.
pub fn backoff_delay(attempts: u32) -> (micros: u64)
    ensures
        micros == backoff_micros(attempts),
{
    if attempts > 6 {
        proof {
            lemma_pow2_large(attempts as nat);
        }
        return 5000;
    }
    let mut doubled: u64 = 50;
    let mut k: u32 = 0;
    while k < attempts
        invariant
            0 <= k <= attempts <= 6,
            doubled == 50 * pow2(k as nat),
        decreases attempts - k,
    {
        proof {
            assert(pow2((k + 1) as nat) == 2 * pow2(k as nat));
            assert(pow2(k as nat) <= 64) by {
                lemma_pow2_small(k as nat);
            }
        }
        doubled = doubled * 2;
        k = k + 1;
    }
    if doubled <= 5000 {
        doubled
    } else {
        5000
    }
}

/// Small powers of two stay small.
pub proof fn lemma_pow2_small(k: nat)
    requires
        k <= 6,
    ensures
        pow2(k) <= 64,
{
    reveal_with_fuel(pow2, 7);
    if k == 0 {
    } else if k == 1 {
    } else if k == 2 {
    } else if k == 3 {
    } else if k == 4 {
    } else if k == 5 {
    } else {
        assert(k == 6);
    }
}

/// From the seventh attempt on, the doubled delay is past the cap.
pub proof fn lemma_pow2_large(k: nat)
    requires
        k >= 7,
    ensures
        pow2(k) >= 128,
    decreases k,
{
    if k == 7 {
        reveal_with_fuel(pow2, 8);
    } else {
        lemma_pow2_large((k - 1) as nat);
    }
}

/// The strategies of `s` whose display name is not `name`, in order.
pub open spec fn without_named(s: Seq<HealingStrategy>, name: Seq<char>) -> Seq<HealingStrategy>
    decreases s.len(),
{
    if s.len() == 0 {
        s
    } else if strategy_name(s.last()) == name {
        without_named(s.drop_last(), name)
    } else {
        without_named(s.drop_last(), name).push(s.last())
    }
}

/// The order in which a site's strategies are tried when the ranker
/// selected the strategy named `selected`: the first strategy of that name
/// moves to the front, the others keep their order, and further copies of
/// it are dropped. Without a selection the contract's order stands.
pub open spec fn ordered_strategies(s: Seq<HealingStrategy>, selected: Option<Seq<char>>) -> Seq<
    HealingStrategy,
> {
    match selected {
        None => s,
        Some(name) => if exists|i: int| 0 <= i < s.len() && strategy_name(s[i]) == name {
            let i = choose|i: int|
                0 <= i < s.len() && strategy_name(s[i]) == name && forall|j: int|
                    0 <= j < i ==> strategy_name(s[j]) != name;
            seq![s[i]] + without_named(s, name)
        } else {
            without_named(s, name)
        },
    }
}

/// Orders `strategies` for an attempt, given the name the ranker selected.
pub fn order_strategies(strategies: &[HealingStrategy], selected: Option<&str>) -> (r: Vec<
    HealingStrategy,
>)
    ensures
        r@ == ordered_strategies(
            strategies@,
            match selected {
                Some(n) => Some(n@),
                None => None,
            },
        ),
{
    let mut out: Vec<HealingStrategy> = Vec::new();
    match selected {
        None => {
            let mut i: usize = 0;
            while i < strategies.len()
                invariant
                    0 <= i <= strategies@.len(),
                    out@ == strategies@.take(i as int),
                decreases strategies@.len() - i,
            {
                out.push(strategies[i].clone_strategy());
                i = i + 1;
                proof {
                    assert(out@ =~= strategies@.take(i as int));
                }
            }
            proof {
                assert(strategies@.take(i as int) =~= strategies@);
            }
            out
        },
        Some(name) => {
            let mut first: Option<usize> = None;
            let mut i: usize = 0;
            while i < strategies.len()
                invariant
                    0 <= i <= strategies@.len(),
                    out@ == without_named(strategies@.take(i as int), name@),
                    first is None ==> forall|j: int|
                        0 <= j < i ==> strategy_name(strategies@[j]) != name@,
                    first is Some ==> first.unwrap() < i && strategy_name(
                        strategies@[first.unwrap() as int],
                    ) == name@ && forall|j: int|
                        0 <= j < first.unwrap() ==> strategy_name(strategies@[j]) != name@,
                decreases strategies@.len() - i,
            {
                proof {
                    assert(strategies@.take(i + 1).drop_last() =~= strategies@.take(i as int));
                    assert(strategies@.take(i + 1).last() == strategies@[i as int]);
                }
                let shown = strategies[i].to_string();
                if crate::text::str_eq(shown.as_str(), name) {
                    if first.is_none() {
                        first = Some(i);
                    }
                } else {
                    out.push(strategies[i].clone_strategy());
                }
                i = i + 1;
            }
            proof {
                assert(strategies@.take(i as int) =~= strategies@);
            }
            match first {
                None => out,
                Some(f) => {
                    let ghost rest = out@;
                    out.insert(0, strategies[f].clone_strategy());
                    proof {
                        let k = choose|k: int|
                            0 <= k < strategies@.len() && strategy_name(strategies@[k]) == name@
                                && forall|j: int|
                                0 <= j < k ==> strategy_name(strategies@[j]) != name@;
                        if k < f {
                        } else if k > f {
                            assert(strategy_name(strategies@[f as int]) != name@);
                        }
                        assert(out@ =~= seq![strategies@[f as int]] + rest);
                    }
                    out
                },
            }
        },
    }
}

/// Whether `name` is among `names`.
pub open spec fn names_contain(names: Seq<&'static str>, name: Seq<char>) -> bool {
    exists|i: int| 0 <= i < names.len() && names[i]@ == name
}

/// Whether a strategy can be attempted at a site: the capability it needs
/// is declared; an alternate must be registered and proved equivalent.
pub open spec fn feasible<P, D>(
    c: HealingContract<P, D>,
    s: HealingStrategy,
    equivalence_proved: bool,
) -> bool {
    match s {
        HealingStrategy::ReturnDefault => c.default_value is Some,
        HealingStrategy::ReturnCached => c.memoizable,
        HealingStrategy::RetryWithBackoff(n) => c.idempotent_up_to >= n,
        HealingStrategy::SubstituteAlternate(alt) => names_contain(c.alternates@, alt@)
            && equivalence_proved,
        HealingStrategy::DegradeGracefully => c.module is Some,
        HealingStrategy::IsolateAndRestart => c.module is Some,
        HealingStrategy::PropagateToParent => true,
    }
}

/// A strategy of the module tier (degrading gracefully, isolating and
/// restarting) can be attempted exactly at a site whose contract names a
/// module boundary: without one it is never feasible, with one it always
/// is.
pub proof fn law_module_tier_needs_a_module_boundary<P, D>(
    contract: HealingContract<P, D>,
    strategy: HealingStrategy,
    equivalence_proved: bool,
)
    requires
        strategy_tier(strategy) == HealingTier::Module,
    ensures
        feasible(contract, strategy, equivalence_proved) <==> contract.module is Some,
{
}

/// Feasibility of `strategy` at the site of `contract`; for an alternate,
/// `equivalence_proved` is the answer of the solver (or the compiler's
/// guarantee when no solver is used).
pub fn is_strategy_feasible<P, D>(
    contract: &HealingContract<P, D>,
    strategy: &HealingStrategy,
    equivalence_proved: bool,
) -> (b: bool)
    ensures
        b == feasible(*contract, *strategy, equivalence_proved),
{
    match strategy {
        HealingStrategy::ReturnDefault => contract.default_value.is_some(),
        HealingStrategy::ReturnCached => contract.memoizable,
        HealingStrategy::RetryWithBackoff(n) => contract.idempotent_up_to >= *n,
        HealingStrategy::SubstituteAlternate(alt) => {
            let mut i: usize = 0;
            while i < contract.alternates.len()
                invariant
                    0 <= i <= contract.alternates@.len(),
                    *strategy == HealingStrategy::SubstituteAlternate(*alt),
                    forall|j: int| 0 <= j < i ==> contract.alternates@[j]@ != alt@,
                decreases contract.alternates@.len() - i,
            {
                if crate::text::str_eq(contract.alternates[i], alt) {
                    assert(contract.alternates@[i as int]@ == alt@);
                    return equivalence_proved;
                }
                i = i + 1;
            }
            false
        },
        HealingStrategy::DegradeGracefully => contract.module.is_some(),
        HealingStrategy::IsolateAndRestart => contract.module.is_some(),
        HealingStrategy::PropagateToParent => true,
    }
}

/// Whether `v` is a value strategy `s` may produce at a site: the default
/// factory's result for `ReturnDefault`, the cached result for
/// `ReturnCached`; the other strategies act outside the engine and produce
/// no value of their own.
pub open spec fn may_produce<P, D: Fn() -> Vec<u8>>(
    c: HealingContract<P, D>,
    s: HealingStrategy,
    last: Option<Vec<u8>>,
    v: Option<Vec<u8>>,
) -> bool {
    match s {
        HealingStrategy::ReturnDefault => match c.default_value {
            Some(d) => v matches Some(x) && call_ensures(d, (), x),
            None => v is None,
        },
        HealingStrategy::ReturnCached => match (v, last) {
            (Some(a), Some(b)) => a@ == b@,
            (None, None) => true,
            _ => false,
        },
        _ => v is None,
    }
}

/// Whether the postcondition accepted `v` (no postcondition accepts
/// everything).
pub open spec fn accepted<P: Fn(&Vec<u8>) -> bool, D>(c: HealingContract<P, D>, v: Vec<u8>) -> bool {
    match c.postcondition {
        Some(p) => call_ensures(p, (&v,), true),
        None => true,
    }
}

/// Whether the postcondition rejected `v`.
pub open spec fn rejected<P: Fn(&Vec<u8>) -> bool, D>(c: HealingContract<P, D>, v: Vec<u8>) -> bool {
    match c.postcondition {
        Some(p) => call_ensures(p, (&v,), false),
        None => false,
    }
}

/// Whether an attempt of `s` may have failed: a strategy without a value
/// of its own always does; one with a value did when it had none, or when
/// the postcondition rejected the one it produced.
pub open spec fn failed<P: Fn(&Vec<u8>) -> bool, D: Fn() -> Vec<u8>>(
    c: HealingContract<P, D>,
    s: HealingStrategy,
    last: Option<Vec<u8>>,
) -> bool {
    match s {
        HealingStrategy::ReturnDefault | HealingStrategy::ReturnCached => may_produce(
            c,
            s,
            last,
            None,
        ) || exists|v: Vec<u8>| #[trigger] may_produce(c, s, last, Some(v)) && rejected(c, v),
        _ => true,
    }
}

/// Produces the value of one strategy: `ReturnDefault` calls the default
/// factory, `ReturnCached` copies the cached result; the others produce
/// nothing here (a retry is the caller re-running the guarded call, an
/// alternate is dispatched by the caller, a restart is the host's).
pub fn try_strategy<P, D: Fn() -> Vec<u8>>(
    contract: &HealingContract<P, D>,
    strategy: &HealingStrategy,
    last_result: &Option<Vec<u8>>,
) -> (v: Option<Vec<u8>>)
    requires
        contract.default_value matches Some(d) ==> call_requires(d, ()),
    ensures
        may_produce(*contract, *strategy, *last_result, v),
{
    match strategy {
        HealingStrategy::ReturnDefault => match &contract.default_value {
            Some(d) => Some(d()),
            None => None,
        },
        HealingStrategy::ReturnCached => match last_result {
            Some(v) => {
                let copy = v.clone();
                assert(copy@ =~= v@);
                Some(copy)
            },
            None => None,
        },
        _ => None,
    }
}

/// One attempted strategy: its position in the order and whether it
/// recovered the site.
#[derive(Debug, Clone, Copy, PartialEq, Eq, Structural)]
pub struct Attempt {
    pub position: usize,
    pub recovered: bool,
}

/// Whether `result` and `attempts` are what trying the strategies of
/// `order` in turn gives: infeasible ones are skipped, each attempt is
/// recorded in order, and the first strategy that produces a value its
/// postcondition accepts recovers the site; `fault` is escalated when none
/// does.
pub open spec fn strategies_ran<P: Fn(&Vec<u8>) -> bool, D: Fn() -> Vec<u8>>(
    contract: HealingContract<P, D>,
    order: Seq<HealingStrategy>,
    last_result: Option<Vec<u8>>,
    equivalence_proved: bool,
    fault: FaultClass,
    result: HealingResult,
    attempts: Seq<Attempt>,
) -> bool {
    let stop = match result {
        HealingResult::Recovered(_) => attempts.last().position + 1,
        _ => order.len() as int,
    };
    &&& forall|k: int|
        0 <= k < attempts.len() ==> {
            let a = #[trigger] attempts[k];
            &&& a.position < stop
            &&& feasible(contract, order[a.position as int], equivalence_proved)
            &&& (a.recovered <==> k == attempts.len() - 1 && result is Recovered)
            &&& !a.recovered ==> failed(contract, order[a.position as int], last_result)
        }
    &&& forall|k: int, l: int|
        0 <= k < l < attempts.len() ==> attempts[k].position < attempts[l].position
    &&& forall|i: int|
        0 <= i < stop && feasible(contract, order[i], equivalence_proved) ==> exists|k: int|
            0 <= k < attempts.len() && (#[trigger] attempts[k]).position == i
    &&& match result {
        HealingResult::Recovered(v) => {
            &&& attempts.len() > 0
            &&& may_produce(
                contract,
                order[attempts.last().position as int],
                last_result,
                Some(v),
            )
            &&& accepted(contract, v)
        },
        _ => result == HealingResult::Escalated(fault),
    }
}

/// Tries the strategies of `order` in turn, skipping infeasible ones, until
/// one produces a value its postcondition accepts; returns the outcome and
/// the attempts made, in order, for the caller to record. `fault` is
/// escalated when no strategy recovers; `equivalence_proved` answers the
/// feasibility of alternates.
pub fn run_strategies<P: Fn(&Vec<u8>) -> bool, D: Fn() -> Vec<u8>>(
    contract: &HealingContract<P, D>,
    order: &Vec<HealingStrategy>,
    last_result: &Option<Vec<u8>>,
    equivalence_proved: bool,
    fault: FaultClass,
) -> (r: (HealingResult, Vec<Attempt>))
    requires
        contract.default_value matches Some(d) ==> call_requires(d, ()),
        contract.postcondition matches Some(p) ==> forall|v: Vec<u8>| call_requires(p, (&v,)),
    ensures
        strategies_ran(*contract, order@, *last_result, equivalence_proved, fault, r.0, r.1@),
{
    let mut attempts: Vec<Attempt> = Vec::new();
    let mut i: usize = 0;
    while i < order.len()
        invariant
            0 <= i <= order@.len(),
            contract.default_value matches Some(d) ==> call_requires(d, ()),
            contract.postcondition matches Some(p) ==> forall|v: Vec<u8>| call_requires(p, (&v,)),
            forall|k: int|
                0 <= k < attempts@.len() ==> {
                    let a = #[trigger] attempts@[k];
                    &&& a.position < i
                    &&& feasible(*contract, order@[a.position as int], equivalence_proved)
                    &&& !a.recovered
                    &&& failed(*contract, order@[a.position as int], *last_result)
                },
            forall|k: int, l: int|
                0 <= k < l < attempts@.len() ==> attempts@[k].position < attempts@[l].position,
            forall|j: int|
                0 <= j < i && feasible(*contract, order@[j], equivalence_proved) ==> exists|k: int|
                    0 <= k < attempts@.len() && (#[trigger] attempts@[k]).position == j,
        decreases order@.len() - i,
    {
        let strategy = &order[i];
        if is_strategy_feasible(contract, strategy, equivalence_proved) {
            let value = try_strategy(contract, strategy, last_result);
            let passes = match &value {
                Some(v) => match &contract.postcondition {
                    Some(p) => p(v),
                    None => true,
                },
                None => false,
            };
            let ghost before = attempts@;
            if passes {
                attempts.push(Attempt { position: i, recovered: true });
                match value {
                    Some(v) => {
                        proof {
                            assert forall|j: int|
                                0 <= j < i + 1 && feasible(
                                    *contract,
                                    order@[j],
                                    equivalence_proved,
                                ) implies exists|k: int|
                                0 <= k < attempts@.len() && (#[trigger] attempts@[k]).position
                                    == j by {
                                if j == i {
                                    assert(attempts@[attempts@.len() - 1].position == j);
                                } else {
                                    let k = choose|k: int|
                                        0 <= k < before.len() && (#[trigger] before[k]).position
                                            == j;
                                    assert(attempts@[k] == before[k]);
                                }
                            }
                        }
                        return (HealingResult::Recovered(v), attempts);
                    },
                    None => {
                        return (HealingResult::Escalated(fault), attempts);
                    },
                }
            } else {
                attempts.push(Attempt { position: i, recovered: false });
                proof {
                    match value {
                        Some(v) => {
                            assert(may_produce(*contract, order@[i as int], *last_result, Some(v)));
                            assert(rejected(*contract, v));
                            assert(failed(*contract, order@[i as int], *last_result));
                        },
                        None => {},
                    }
                    assert forall|j: int|
                        0 <= j < i + 1 && feasible(
                            *contract,
                            order@[j],
                            equivalence_proved,
                        ) implies exists|k: int|
                        0 <= k < attempts@.len() && (#[trigger] attempts@[k]).position == j by {
                        if j == i {
                            assert(attempts@[attempts@.len() - 1].position == j);
                        } else {
                            let k = choose|k: int|
                                0 <= k < before.len() && (#[trigger] before[k]).position == j;
                            assert(attempts@[k] == before[k]);
                        }
                    }
                }
            }
        }
        i = i + 1;
    }
    (HealingResult::Escalated(fault), attempts)
}

/// Handles a fault of class `fault` at a site: `site` is the site's
/// contract and last good result, `None` when no contract is registered for
/// it. An unregistered site escalates the fault with no attempt; otherwise
/// the site's strategies are ordered by the ranker's selection and tried as
/// `run_strategies` does. Gives the outcome, the order used and the attempts.
pub fn handle_fault_at<P: Fn(&Vec<u8>) -> bool, D: Fn() -> Vec<u8>>(
    site: Option<(&HealingContract<P, D>, &Option<Vec<u8>>)>,
    selected: Option<&str>,
    equivalence_proved: bool,
    fault: FaultClass,
) -> (r: (HealingResult, Vec<HealingStrategy>, Vec<Attempt>))
    requires
        site matches Some((c, _)) ==> {
            &&& c.default_value matches Some(d) ==> call_requires(d, ())
            &&& c.postcondition matches Some(p) ==> forall|v: Vec<u8>| call_requires(p, (&v,))
        },
    ensures
        site is None ==> {
            &&& r.0 == HealingResult::Escalated(fault)
            &&& r.1@.len() == 0
            &&& r.2@.len() == 0
        },
        site matches Some((c, last)) ==> {
            &&& r.1@ == ordered_strategies(
                c.strategies@,
                match selected {
                    Some(n) => Some(n@),
                    None => None,
                },
            )
            &&& strategies_ran(*c, r.1@, *last, equivalence_proved, fault, r.0, r.2@)
        },
{
    match site {
        None => (HealingResult::Escalated(fault), Vec::new(), Vec::new()),
        Some((contract, last_result)) => {
            let order = order_strategies(contract.strategies(), selected);
            let (result, attempts) = run_strategies(
                contract,
                &order,
                last_result,
                equivalence_proved,
                fault,
            );
            (result, order, attempts)
        },
    }
}

} // verus!

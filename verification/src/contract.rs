//! Healing contracts: the fault classes a guarded site may meet, the
//! ordered recovery strategies it may use, the tier each strategy runs in
//! with its latency budget, and the contract value that binds them.
//!
//! A contract does not execute anything; the engine consumes it.
use vstd::prelude::*;
use crate::text::{hex_digits, u64_hex};

verus! {

/// The tier of healing, ordered by latency budget and by the scope of what
/// it can recover.
#[derive(Debug, Clone, Copy, PartialEq, Eq, PartialOrd, Ord, Hash, Structural)]
pub enum HealingTier {
    /// Expression-level healing: under one microsecond.
    Expression,
    /// Function-level healing: under ten milliseconds.
    Function,
    /// Module-level healing: under half a second.
    Module,
    /// Offline recompilation feedback: no latency bound.
    Recompilation,
}

/// The largest value a `std::time::Duration` can hold, in nanoseconds.
pub const DURATION_MAX_NANOS: u128 = 18446744073709551615999999999;

/// The latency budget of a tier, in nanoseconds.
pub open spec fn tier_budget_nanos(t: HealingTier) -> u128 {
    match t {
        HealingTier::Expression => 1000,
        HealingTier::Function => 10000000,
        HealingTier::Module => 500000000,
        HealingTier::Recompilation => DURATION_MAX_NANOS,
    }
}

/// The position of a tier in the order of the declaration.
pub open spec fn tier_rank(t: HealingTier) -> int {
    match t {
        HealingTier::Expression => 0,
        HealingTier::Function => 1,
        HealingTier::Module => 2,
        HealingTier::Recompilation => 3,
    }
}

/// A tier further down the order has a strictly larger latency budget.
pub proof fn law_tier_budgets_monotonic(a: HealingTier, b: HealingTier)
    requires
        tier_rank(a) < tier_rank(b),
    ensures
        tier_budget_nanos(a) < tier_budget_nanos(b),
{
}

impl HealingTier {
    /// The maximum latency budget for this tier, in nanoseconds; the
    /// recompilation tier has the largest duration there is.
    pub fn latency_budget(&self) -> (n: u128)
        ensures
            n == tier_budget_nanos(*self),
    {
        match self {
            HealingTier::Expression => 1000,
            HealingTier::Function => 10000000,
            HealingTier::Module => 500000000,
            HealingTier::Recompilation => DURATION_MAX_NANOS,
        }
    }

    /// The tier's name in lower case.
    pub fn to_string(&self) -> (s: String)
        ensures
            s@ == tier_name(*self)@,
    {
        String::from_str(tier_name_str(self))
    }
}

/// The name of a tier.
pub open spec fn tier_name(t: HealingTier) -> &'static str {
    match t {
        HealingTier::Expression => "expression",
        HealingTier::Function => "function",
        HealingTier::Module => "module",
        HealingTier::Recompilation => "recompilation",
    }
}

fn tier_name_str(t: &HealingTier) -> (s: &'static str)
    ensures
        s == tier_name(*t),
{
    match t {
        HealingTier::Expression => "expression",
        HealingTier::Function => "function",
        HealingTier::Module => "module",
        HealingTier::Recompilation => "recompilation",
    }
}

/// A class of fault that can occur at a guarded site.
#[derive(Debug, Clone, Copy, Eq, Hash)]
pub enum FaultClass {
    /// A null (or otherwise invalid) pointer was dereferenced.
    NullDereference,
    /// An index or offset was out of bounds.
    OutOfBounds,
    /// An operation took longer than its deadline.
    Timeout,
    /// A connection was refused by a remote peer.
    ConnectionRefused,
    /// Memory could not be allocated.
    OutOfMemory,
    /// A memory leak was detected by the monotonicity test.
    MemoryLeak,
    /// A hardware access violation.
    AccessViolation,
    /// A hardware arithmetic fault (division by zero).
    ArithmeticFault,
    /// A user-defined fault identified by its name.
    Custom(&'static str),
}

/// Two fault classes are the same class: the same variant, and for
/// user-defined faults the same name.
pub open spec fn same_fault(a: FaultClass, b: FaultClass) -> bool {
    match (a, b) {
        (FaultClass::Custom(x), FaultClass::Custom(y)) => x@ == y@,
        (FaultClass::Custom(_), _) => false,
        (_, FaultClass::Custom(_)) => false,
        _ => a == b,
    }
}

impl PartialEq for FaultClass {
    fn eq(&self, other: &Self) -> (r: bool) {
        match (self, other) {
            (FaultClass::NullDereference, FaultClass::NullDereference) => true,
            (FaultClass::OutOfBounds, FaultClass::OutOfBounds) => true,
            (FaultClass::Timeout, FaultClass::Timeout) => true,
            (FaultClass::ConnectionRefused, FaultClass::ConnectionRefused) => true,
            (FaultClass::OutOfMemory, FaultClass::OutOfMemory) => true,
            (FaultClass::MemoryLeak, FaultClass::MemoryLeak) => true,
            (FaultClass::AccessViolation, FaultClass::AccessViolation) => true,
            (FaultClass::ArithmeticFault, FaultClass::ArithmeticFault) => true,
            (FaultClass::Custom(x), FaultClass::Custom(y)) => crate::text::str_eq(x, y),
            _ => false,
        }
    }
}

impl vstd::std_specs::cmp::PartialEqSpecImpl for FaultClass {
    open spec fn obeys_eq_spec() -> bool {
        true
    }

    open spec fn eq_spec(&self, other: &Self) -> bool {
        same_fault(*self, *other)
    }
}

/// A recovery strategy, each running in one tier.
#[derive(Debug, Clone, Eq, Hash)]
pub enum HealingStrategy {
    /// Return the zero value of the return type.
    ReturnDefault,
    /// Return the last successful result cached at the site.
    ReturnCached,
    /// Retry up to `n` times with exponential backoff.
    RetryWithBackoff(u32),
    /// Call a named alternate implementation.
    SubstituteAlternate(&'static str),
    /// Disable the feature and continue with reduced functionality.
    DegradeGracefully,
    /// Restart the module from its last committed snapshot.
    IsolateAndRestart,
    /// Escalate to the enclosing contract.
    PropagateToParent,
}

/// Two strategies are the same: the same variant with the same retry count
/// or alternate name.
pub open spec fn same_strategy(a: HealingStrategy, b: HealingStrategy) -> bool {
    match (a, b) {
        (HealingStrategy::SubstituteAlternate(x), HealingStrategy::SubstituteAlternate(y)) => x@
            == y@,
        (HealingStrategy::SubstituteAlternate(_), _) => false,
        (_, HealingStrategy::SubstituteAlternate(_)) => false,
        _ => a == b,
    }
}

impl PartialEq for HealingStrategy {
    fn eq(&self, other: &Self) -> (r: bool) {
        match (self, other) {
            (HealingStrategy::ReturnDefault, HealingStrategy::ReturnDefault) => true,
            (HealingStrategy::ReturnCached, HealingStrategy::ReturnCached) => true,
            (HealingStrategy::RetryWithBackoff(x), HealingStrategy::RetryWithBackoff(y)) => x == y,
            (HealingStrategy::SubstituteAlternate(x), HealingStrategy::SubstituteAlternate(y)) => {
                crate::text::str_eq(x, y)
            },
            (HealingStrategy::DegradeGracefully, HealingStrategy::DegradeGracefully) => true,
            (HealingStrategy::IsolateAndRestart, HealingStrategy::IsolateAndRestart) => true,
            (HealingStrategy::PropagateToParent, HealingStrategy::PropagateToParent) => true,
            _ => false,
        }
    }
}

impl vstd::std_specs::cmp::PartialEqSpecImpl for HealingStrategy {
    open spec fn obeys_eq_spec() -> bool {
        true
    }

    open spec fn eq_spec(&self, other: &Self) -> bool {
        same_strategy(*self, *other)
    }
}

/// The tier each strategy runs in.
pub open spec fn strategy_tier(s: HealingStrategy) -> HealingTier {
    match s {
        HealingStrategy::ReturnDefault => HealingTier::Expression,
        HealingStrategy::ReturnCached => HealingTier::Expression,
        HealingStrategy::RetryWithBackoff(_) => HealingTier::Function,
        HealingStrategy::SubstituteAlternate(_) => HealingTier::Function,
        HealingStrategy::DegradeGracefully => HealingTier::Module,
        HealingStrategy::IsolateAndRestart => HealingTier::Module,
        HealingStrategy::PropagateToParent => HealingTier::Expression,
    }
}

/// The display name of a strategy: its variant name, with the retry count
/// or the alternate's name in parentheses.
pub open spec fn strategy_name(s: HealingStrategy) -> Seq<char> {
    match s {
        HealingStrategy::ReturnDefault => "ReturnDefault"@,
        HealingStrategy::ReturnCached => "ReturnCached"@,
        HealingStrategy::RetryWithBackoff(n) => "RetryWithBackoff("@ + crate::text::decimal(
            n as nat,
        ) + ")"@,
        HealingStrategy::SubstituteAlternate(alt) => "SubstituteAlternate("@ + alt@ + ")"@,
        HealingStrategy::DegradeGracefully => "DegradeGracefully"@,
        HealingStrategy::IsolateAndRestart => "IsolateAndRestart"@,
        HealingStrategy::PropagateToParent => "PropagateToParent"@,
    }
}

impl HealingStrategy {
    /// The tier this strategy executes in.
    pub fn tier(&self) -> (t: HealingTier)
        ensures
            t == strategy_tier(*self),
    {
        match self {
            HealingStrategy::ReturnDefault | HealingStrategy::ReturnCached => {
                HealingTier::Expression
            },
            HealingStrategy::RetryWithBackoff(_) | HealingStrategy::SubstituteAlternate(_) => {
                HealingTier::Function
            },
            HealingStrategy::DegradeGracefully | HealingStrategy::IsolateAndRestart => {
                HealingTier::Module
            },
            HealingStrategy::PropagateToParent => HealingTier::Expression,
        }
    }

    /// A copy of the strategy.
    pub fn clone_strategy(&self) -> (c: Self)
        ensures
            c == *self,
    {
        match self {
            HealingStrategy::ReturnDefault => HealingStrategy::ReturnDefault,
            HealingStrategy::ReturnCached => HealingStrategy::ReturnCached,
            HealingStrategy::RetryWithBackoff(n) => HealingStrategy::RetryWithBackoff(*n),
            HealingStrategy::SubstituteAlternate(a) => HealingStrategy::SubstituteAlternate(a),
            HealingStrategy::DegradeGracefully => HealingStrategy::DegradeGracefully,
            HealingStrategy::IsolateAndRestart => HealingStrategy::IsolateAndRestart,
            HealingStrategy::PropagateToParent => HealingStrategy::PropagateToParent,
        }
    }

    /// The strategy's display name, e.g. `RetryWithBackoff(3)`.
    pub fn to_string(&self) -> (s: String)
        ensures
            s@ == strategy_name(*self),
    {
        match self {
            HealingStrategy::ReturnDefault => String::from_str("ReturnDefault"),
            HealingStrategy::ReturnCached => String::from_str("ReturnCached"),
            HealingStrategy::RetryWithBackoff(n) => {
                let mut s = String::from_str("RetryWithBackoff(");
                let digits = crate::text::u64_decimal(*n as u64);
                s.append(digits.as_str());
                s.append(")");
                s
            },
            HealingStrategy::SubstituteAlternate(alt) => {
                let mut s = String::from_str("SubstituteAlternate(");
                s.append(alt);
                s.append(")");
                s
            },
            HealingStrategy::DegradeGracefully => String::from_str("DegradeGracefully"),
            HealingStrategy::IsolateAndRestart => String::from_str("IsolateAndRestart"),
            HealingStrategy::PropagateToParent => String::from_str("PropagateToParent"),
        }
    }
}

/// The name of a fault class: its variant name, or the user-defined name.
pub open spec fn fault_name(f: FaultClass) -> Seq<char> {
    match f {
        FaultClass::NullDereference => "NullDereference"@,
        FaultClass::OutOfBounds => "OutOfBounds"@,
        FaultClass::Timeout => "Timeout"@,
        FaultClass::ConnectionRefused => "ConnectionRefused"@,
        FaultClass::OutOfMemory => "OutOfMemory"@,
        FaultClass::MemoryLeak => "MemoryLeak"@,
        FaultClass::AccessViolation => "AccessViolation"@,
        FaultClass::ArithmeticFault => "ArithmeticFault"@,
        FaultClass::Custom(name) => name@,
    }
}

impl FaultClass {
    /// The fault class's name.
    pub fn to_string(&self) -> (s: String)
        ensures
            s@ == fault_name(*self),
    {
        match self {
            FaultClass::NullDereference => String::from_str("NullDereference"),
            FaultClass::OutOfBounds => String::from_str("OutOfBounds"),
            FaultClass::Timeout => String::from_str("Timeout"),
            FaultClass::ConnectionRefused => String::from_str("ConnectionRefused"),
            FaultClass::OutOfMemory => String::from_str("OutOfMemory"),
            FaultClass::MemoryLeak => String::from_str("MemoryLeak"),
            FaultClass::AccessViolation => String::from_str("AccessViolation"),
            FaultClass::ArithmeticFault => String::from_str("ArithmeticFault"),
            FaultClass::Custom(name) => String::from_str(name),
        }
    }
}

/// Stands for a contract without a postcondition.
#[derive(Debug, Clone, Copy, PartialEq, Eq)]
pub struct NoPostcondition;

/// Stands for a contract without a default-value factory.
#[derive(Debug, Clone, Copy, PartialEq, Eq)]
pub struct NoDefault;

/// A healing contract for a guarded site: the fault classes it guards, the
/// ordered recovery strategies, and the capabilities the strategies need.
/// The postcondition predicate `P` and the default-value factory `D` are
/// carried for the engine, which calls them.
pub struct HealingContract<P, D> {
    /// A stable identifier for the guarded site.
    pub site_id: u64,
    /// The fault classes this site may meet; empty means every class.
    pub fault_classes: Vec<FaultClass>,
    /// The ordered recovery strategies, preferred first; never empty.
    pub strategies: Vec<HealingStrategy>,
    /// The postcondition recovered results must satisfy, if any.
    pub postcondition: Option<P>,
    /// The default value factory used by `ReturnDefault`, if any.
    pub default_value: Option<D>,
    /// Names of the registered alternate implementations.
    pub alternates: Vec<&'static str>,
    /// Whether the site may cache its last successful result.
    pub memoizable: bool,
    /// How many calls of the site are safe to repeat.
    pub idempotent_up_to: u32,
    /// The module boundary the contract belongs to, if any.
    pub module: Option<String>,
}

impl HealingContract<NoPostcondition, NoDefault> {
    /// A contract for `site_id` over the given fault classes and strategies,
    /// with no postcondition, default factory, alternates or capabilities.
    /// At least one strategy is needed.
    pub fn new(
        site_id: u64,
        fault_classes: Vec<FaultClass>,
        strategies: Vec<HealingStrategy>,
    ) -> (c: Self)
        requires
            strategies.len() > 0,
        ensures
            c.site_id == site_id,
            c.fault_classes@ == fault_classes@,
            c.strategies@ == strategies@,
            c.postcondition is None,
            c.default_value is None,
            c.alternates@.len() == 0,
            !c.memoizable,
            c.idempotent_up_to == 0,
            c.module is None,
    {
        HealingContract {
            site_id,
            fault_classes,
            strategies,
            postcondition: None,
            default_value: None,
            alternates: Vec::new(),
            memoizable: false,
            idempotent_up_to: 0,
            module: None,
        }
    }
}

/// Whether a contract over `classes` guards `fault`: an empty set guards
/// everything.
pub open spec fn guards_fault(classes: Seq<FaultClass>, fault: FaultClass) -> bool {
    classes.len() == 0 || exists|i: int| 0 <= i < classes.len() && same_fault(classes[i], fault)
}

/// The parts joined by `, `.
pub open spec fn comma_joined(parts: Seq<Seq<char>>) -> Seq<char>
    decreases parts.len(),
{
    if parts.len() == 0 {
        Seq::empty()
    } else if parts.len() == 1 {
        parts[0]
    } else {
        comma_joined(parts.drop_last()) + ", "@ + parts.last()
    }
}

/// How a contract is written: its site in hexadecimal, then the names of its
/// fault classes and of its strategies, each list in order.
pub open spec fn contract_text<P, D>(c: HealingContract<P, D>) -> Seq<char> {
    "HC(site="@ + seq!['0', 'x'] + hex_digits(c.site_id as nat) + ", faults=["@ + comma_joined(
        c.fault_classes@.map_values(|f: FaultClass| fault_name(f)),
    ) + "], strategies=["@ + comma_joined(
        c.strategies@.map_values(|s: HealingStrategy| strategy_name(s)),
    ) + "])"@
}

impl<P, D> HealingContract<P, D> {
    /// Whether this contract guards against `fault`.
    pub fn guards(&self, fault: &FaultClass) -> (b: bool)
        ensures
            b == guards_fault(self.fault_classes@, *fault),
    {
        if self.fault_classes.len() == 0 {
            return true;
        }
        let mut i: usize = 0;
        while i < self.fault_classes.len()
            invariant
                0 <= i <= self.fault_classes.len(),
                forall|j: int| 0 <= j < i ==> !same_fault(self.fault_classes@[j], *fault),
            decreases self.fault_classes.len() - i,
        {
            if self.fault_classes[i] == *fault {
                return true;
            }
            i = i + 1;
        }
        false
    }

    /// The contract as text, e.g.
    /// `HC(site=0x2a, faults=[Timeout], strategies=[ReturnDefault])`.
    pub fn to_string(&self) -> (s: String)
        ensures
            s@ == contract_text(*self),
    {
        let mut s = String::from_str("HC(site=");
        let hex = u64_hex(self.site_id);
        s.append(hex.as_str());
        s.append(", faults=[");
        let ghost head = s@;
        let ghost faults = self.fault_classes@.map_values(|f: FaultClass| fault_name(f));
        let mut i: usize = 0;
        while i < self.fault_classes.len()
            invariant
                0 <= i <= self.fault_classes@.len(),
                faults == self.fault_classes@.map_values(|f: FaultClass| fault_name(f)),
                s@ == head + comma_joined(faults.take(i as int)),
            decreases self.fault_classes@.len() - i,
        {
            proof {
                assert(faults.take(i + 1).drop_last() =~= faults.take(i as int));
            }
            if i > 0 {
                s.append(", ");
            }
            let name = self.fault_classes[i].to_string();
            s.append(name.as_str());
            proof {
                if i == 0 {
                    assert(comma_joined(faults.take(1)) == faults[0]);
                }
                assert(s@ =~= head + comma_joined(faults.take(i + 1)));
            }
            i = i + 1;
        }
        proof {
            assert(faults.take(i as int) =~= faults);
        }
        s.append("], strategies=[");
        let ghost middle = s@;
        let ghost names = self.strategies@.map_values(|st: HealingStrategy| strategy_name(st));
        let mut j: usize = 0;
        while j < self.strategies.len()
            invariant
                0 <= j <= self.strategies@.len(),
                names == self.strategies@.map_values(|st: HealingStrategy| strategy_name(st)),
                s@ == middle + comma_joined(names.take(j as int)),
            decreases self.strategies@.len() - j,
        {
            proof {
                assert(names.take(j + 1).drop_last() =~= names.take(j as int));
            }
            if j > 0 {
                s.append(", ");
            }
            let name = self.strategies[j].to_string();
            s.append(name.as_str());
            proof {
                if j == 0 {
                    assert(comma_joined(names.take(1)) == names[0]);
                }
                assert(s@ =~= middle + comma_joined(names.take(j + 1)));
            }
            j = j + 1;
        }
        proof {
            assert(names.take(j as int) =~= names);
        }
        s.append("])");
        s
    }

    /// The strategies, in preference order.
    pub fn strategies(&self) -> (s: &[HealingStrategy])
        ensures
            s@ == self.strategies@,
    {
        self.strategies.as_slice()
    }

    /// The same contract with a postcondition predicate.
    pub fn with_postcondition<Q>(self, predicate: Q) -> (c: HealingContract<Q, D>)
        ensures
            c.postcondition == Some(predicate),
            c.site_id == self.site_id,
            c.fault_classes == self.fault_classes,
            c.strategies == self.strategies,
            c.default_value == self.default_value,
            c.alternates == self.alternates,
            c.memoizable == self.memoizable,
            c.idempotent_up_to == self.idempotent_up_to,
            c.module == self.module,
    {
        HealingContract {
            site_id: self.site_id,
            fault_classes: self.fault_classes,
            strategies: self.strategies,
            postcondition: Some(predicate),
            default_value: self.default_value,
            alternates: self.alternates,
            memoizable: self.memoizable,
            idempotent_up_to: self.idempotent_up_to,
            module: self.module,
        }
    }

    /// The same contract with a default-value factory.
    pub fn with_default<E>(self, default: E) -> (c: HealingContract<P, E>)
        ensures
            c.default_value == Some(default),
            c.site_id == self.site_id,
            c.fault_classes == self.fault_classes,
            c.strategies == self.strategies,
            c.postcondition == self.postcondition,
            c.alternates == self.alternates,
            c.memoizable == self.memoizable,
            c.idempotent_up_to == self.idempotent_up_to,
            c.module == self.module,
    {
        HealingContract {
            site_id: self.site_id,
            fault_classes: self.fault_classes,
            strategies: self.strategies,
            postcondition: self.postcondition,
            default_value: Some(default),
            alternates: self.alternates,
            memoizable: self.memoizable,
            idempotent_up_to: self.idempotent_up_to,
            module: self.module,
        }
    }
}

} // verus!

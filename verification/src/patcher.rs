//! Strategy-slot patching: an interned table of precompiled strategies, each
//! with a stable tag, and patchable per-site slots holding the tag of the
//! active strategy in an atomic word, so that a patch is a single
//! compare-and-swap and readers never see a torn update.
use std::sync::atomic::{AtomicUsize, Ordering};
use vstd::prelude::*;

verus! {

/// The interned set of precompiled strategies: each name with its
/// function, the tag of an entry being its index.
#[derive(Debug)]
pub struct StrategyInterner<F> {
    table: Vec<(&'static str, F)>,
}

impl<F: Copy> StrategyInterner<F> {
    /// The interned entries, tag order.
    pub closed spec fn entries(&self) -> Seq<(&'static str, F)> {
        self.table@
    }

    /// Builds the intern table from precompiled strategies.
    pub fn new(strategies: Vec<(&'static str, F)>) -> (i: Self)
        ensures
            i.entries() == strategies@,
    {
        StrategyInterner { table: strategies }
    }

    /// The number of interned strategies.
    pub fn len(&self) -> (n: usize)
        ensures
            n == self.entries().len(),
    {
        self.table.len()
    }

    /// The tag of the strategy named `name`: the first entry with that
    /// name, if any.
    pub fn tag(&self, name: &'static str) -> (t: Option<usize>)
        ensures
            match t {
                Some(i) => {
                    &&& i < self.entries().len()
                    &&& self.entries()[i as int].0@ == name@
                    &&& forall|j: int| 0 <= j < i ==> self.entries()[j].0@ != name@
                },
                None => forall|j: int| 0 <= j < self.entries().len() ==> self.entries()[j].0@ != name@,
            },
    {
        let mut i: usize = 0;
        while i < self.table.len()
            invariant
                0 <= i <= self.table.len(),
                forall|j: int| 0 <= j < i ==> self.table@[j].0@ != name@,
            decreases self.table.len() - i,
        {
            if crate::text::str_eq(self.table[i].0, name) {
                return Some(i);
            }
            i = i + 1;
        }
        None
    }

    /// The function behind `tag`; the tag must be interned.
    pub fn strategy(&self, tag: usize) -> (f: F)
        requires
            tag < self.entries().len(),
        ensures
            f == self.entries()[tag as int].1,
    {
        self.table[tag].1
    }

    /// The name behind `tag`; the tag must be interned.
    pub fn name(&self, tag: usize) -> (n: &'static str)
        requires
            tag < self.entries().len(),
        ensures
            n == self.entries()[tag as int].0,
    {
        self.table[tag].0
    }
}

/// A guarded call site's patchable strategy slot: the tag of the active
/// strategy, in an atomic word shared by every thread that dispatches
/// through the site.
#[derive(Debug)]
pub struct PatchableSlot {
    current: AtomicUsize,
}

impl PatchableSlot {
    /// Binds a site to `initial_tag`, which must be interned. The tag is
    /// held in a shared atomic word whose value contracts cannot observe,
    /// so no clause speaks of it.
    pub fn new<F: Copy>(interner: &StrategyInterner<F>, initial_tag: usize) -> (s: Self)
        requires
            initial_tag < interner.entries().len(),
    {
        PatchableSlot { current: AtomicUsize::new(initial_tag) }
    }

    /// The currently active strategy tag. Other threads may patch the slot
    /// at any time, so nothing is promised of the value read.
    pub fn active_tag(&self) -> usize {
        self.current.load(Ordering::Acquire)
    }

    /// Atomically sets `new_tag` only if the active tag is `expected_tag`;
    /// `true` when the patch was applied. Whether it applies depends on
    /// what other threads stored, so either answer can come back.
    pub fn patch_if(&self, expected_tag: usize, new_tag: usize) -> bool {
        let r = self.current.compare_exchange(
            expected_tag,
            new_tag,
            Ordering::AcqRel,
            Ordering::Acquire,
        );
        r.is_ok()
    }

    /// Whether the slot currently dispatches `tag`. Other threads may patch
    /// the slot at any time, so either answer can come back.
    pub fn dispatches(&self, tag: usize) -> bool {
        self.active_tag() == tag
    }
}

/// A batch of patchable slots, one per guarded call site.
#[derive(Debug)]
pub struct PatchSites {
    slots: Vec<PatchableSlot>,
}

impl PatchSites {
    /// The number of registered call sites.
    pub closed spec fn count(&self) -> nat {
        self.slots@.len()
    }

    /// The slot of call site `i`.
    pub closed spec fn slot_at(&self, i: int) -> PatchableSlot {
        self.slots@[i]
    }

    /// No call site yet.
    pub fn new() -> (p: Self)
        ensures
            p.count() == 0,
    {
        PatchSites { slots: Vec::new() }
    }

    /// How many call sites are registered.
    pub fn len(&self) -> (n: usize)
        ensures
            n == self.count(),
    {
        self.slots.len()
    }

    /// `true` iff no call site is registered.
    pub fn is_empty(&self) -> (b: bool)
        ensures
            b == (self.count() == 0),
    {
        self.slots.len() == 0
    }

    /// Registers a call site bound to `initial_tag`; returns its index.
    pub fn add<F: Copy>(&mut self, interner: &StrategyInterner<F>, initial_tag: usize) -> (idx:
        usize)
        requires
            initial_tag < interner.entries().len(),
        ensures
            idx == old(self).count(),
            final(self).count() == old(self).count() + 1,
    {
        let idx = self.slots.len();
        self.slots.push(PatchableSlot::new(interner, initial_tag));
        idx
    }

    /// The slot of call site `index`, which must be registered.
    pub fn slot(&self, index: usize) -> (s: &PatchableSlot)
        requires
            index < self.count(),
        ensures
            *s == self.slot_at(index as int),
    {
        &self.slots[index]
    }
}

impl Default for PatchSites {
    fn default() -> (p: Self)
        ensures
            p.count() == 0,
    {
        PatchSites::new()
    }
}

} // verus!

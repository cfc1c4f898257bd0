//! Supervisor specifications for module-level healing: restart strategies,
//! child restart types, restart-intensity bounds, and the registry of
//! supervisors that decides when a restart storm must be escalated.
use vstd::prelude::*;

verus! {

/// The fault-class tag of a module that missed its heartbeat: a timeout.
pub const TIMEOUT_FAULT_TAG: u32 = 2;

/// The fault-class tag used when a TTL probe expires.
pub fn timeout_fault_tag() -> (t: u32)
    ensures
        t == TIMEOUT_FAULT_TAG,
{
    2
}

/// The restart strategy of a supervisor.
#[derive(Debug, Clone, Copy, PartialEq, Eq, Structural)]
pub enum RestartStrategy {
    /// If one child fails, restart all children.
    OneForAll,
    /// If one child fails, restart only that child.
    OneForOne,
    /// If one child fails, restart it and every child started after it.
    RestForOne,
}

/// How a child is restarted.
#[derive(Debug, Clone, Copy, PartialEq, Eq, Structural)]
pub enum ChildType {
    /// Always restart.
    Permanent,
    /// Restart only after an abnormal exit.
    Transient,
    /// Never restart.
    Temporary,
}

/// A child specification within a supervisor.
#[derive(Debug)]
pub struct ChildSpec {
    /// The child's unique name within the supervisor.
    pub name: String,
    /// The module the child runs.
    pub module: String,
    /// How the child is restarted.
    pub child_type: ChildType,
    /// Whether the child's healing is memoizable.
    pub healing_memoizable: bool,
    /// How many repeated calls of the child are safe.
    pub idempotent_up_to: u32,
}

impl Clone for ChildSpec {
    fn clone(&self) -> (c: Self)
        ensures
            c == *self,
    {
        ChildSpec {
            name: self.name.clone(),
            module: self.module.clone(),
            child_type: self.child_type,
            healing_memoizable: self.healing_memoizable,
            idempotent_up_to: self.idempotent_up_to,
        }
    }
}

/// The default restart intensity: this many restarts ...
pub const DEFAULT_MAX_RESTARTS: u32 = 5;

/// ... within this many seconds.
pub const DEFAULT_MAX_TIME: u64 = 60;

/// A supervisor specification.
#[derive(Debug)]
pub struct SupervisorSpec {
    /// The supervisor's unique name.
    pub name: String,
    /// The restart strategy.
    pub strategy: RestartStrategy,
    /// Restarts allowed within `max_time` before escalating.
    pub max_restarts: u32,
    /// The window, in seconds, over which restarts are counted.
    pub max_time: u64,
    /// The children, in start order.
    pub children: Vec<ChildSpec>,
}

impl SupervisorSpec {
    /// A supervisor named `name` with the default restart intensity and no
    /// children.
    pub fn new(name: &str, strategy: RestartStrategy) -> (s: Self)
        ensures
            s.name@ == name@,
            s.strategy == strategy,
            s.max_restarts == DEFAULT_MAX_RESTARTS,
            s.max_time == DEFAULT_MAX_TIME,
            s.children@.len() == 0,
    {
        SupervisorSpec {
            name: String::from_str(name),
            strategy,
            max_restarts: DEFAULT_MAX_RESTARTS,
            max_time: DEFAULT_MAX_TIME,
            children: Vec::new(),
        }
    }

    /// Sets the restart intensity bound: `max_restarts` within `max_time`
    /// seconds.
    pub fn with_restart_intensity(self, max_restarts: u32, max_time: u64) -> (s: Self)
        ensures
            s.name == self.name,
            s.strategy == self.strategy,
            s.max_restarts == max_restarts,
            s.max_time == max_time,
            s.children == self.children,
    {
        let mut s = self;
        s.max_restarts = max_restarts;
        s.max_time = max_time;
        s
    }

    /// Adds a child after the existing ones.
    pub fn with_child(self, child: ChildSpec) -> (s: Self)
        ensures
            s.name == self.name,
            s.strategy == self.strategy,
            s.max_restarts == self.max_restarts,
            s.max_time == self.max_time,
            s.children@ == self.children@.push(child),
    {
        let mut s = self;
        s.children.push(child);
        s
    }
}

impl Clone for SupervisorSpec {
    fn clone(&self) -> (c: Self)
        ensures
            c.name == self.name,
            c.strategy == self.strategy,
            c.max_restarts == self.max_restarts,
            c.max_time == self.max_time,
            c.children@ == self.children@,
    {
        let mut children: Vec<ChildSpec> = Vec::new();
        let mut i: usize = 0;
        while i < self.children.len()
            invariant
                0 <= i <= self.children.len(),
                children@ == self.children@.take(i as int),
            decreases self.children.len() - i,
        {
            children.push(self.children[i].clone());
            i = i + 1;
            proof {
                assert(children@ =~= self.children@.take(i as int));
            }
        }
        proof {
            assert(self.children@.take(i as int) =~= self.children@);
        }
        SupervisorSpec {
            name: self.name.clone(),
            strategy: self.strategy,
            max_restarts: self.max_restarts,
            max_time: self.max_time,
            children,
        }
    }
}

/// The current execution mode of a supervised child.
#[derive(Debug, Clone, Copy, PartialEq, Eq, Structural)]
pub enum ChildMode {
    /// Running normally.
    Normal,
    /// Running with degraded functionality.
    Degraded,
    /// In the middle of a restart.
    Restarting,
}

/// The live state of a supervised child; times are nanoseconds on the
/// host's monotonic clock.
#[derive(Debug)]
pub struct ChildState {
    /// The child's specification.
    pub spec: ChildSpec,
    /// Its current mode.
    pub mode: ChildMode,
    /// When it last started.
    pub last_start: Option<u64>,
    /// How many times it was restarted.
    pub restart_count: u64,
}

/// The live state of a supervisor.
#[derive(Debug)]
pub struct SupervisorState {
    /// The supervisor's specification.
    pub spec: SupervisorSpec,
    /// Its children's states, in start order.
    pub children: Vec<ChildState>,
    /// When the recent restarts happened (nanoseconds).
    pub recent_restarts: Vec<u64>,
    /// Whether the supervisor is alive.
    pub alive: bool,
}

/// A restart at `t` still counts at `now` within a window of `max_time`
/// seconds.
pub open spec fn in_window(t: u64, now: u64, max_time: u64) -> bool {
    (if now >= t {
        now - t
    } else {
        0
    }) < max_time * 1000000000
}

/// The restarts of `restarts` that still count at `now`, in order.
pub open spec fn restarts_in_window(restarts: Seq<u64>, now: u64, max_time: u64) -> Seq<u64> {
    restarts.filter(|t: u64| in_window(t, now, max_time))
}

/// The index of the first entry of `names` equal to `name`, if any.
pub open spec fn index_of_name(names: Seq<Seq<char>>, name: Seq<char>) -> Option<int> {
    if exists|i: int| 0 <= i < names.len() && names[i] == name {
        Some(choose|i: int| 0 <= i < names.len() && names[i] == name)
    } else {
        None
    }
}

/// The position of the first child named `name`, if any.
pub open spec fn first_child(children: Seq<ChildState>, name: Seq<char>) -> Option<int> {
    if exists|i: int| 0 <= i < children.len() && children[i].spec.name@ == name {
        Some(
            choose|i: int|
                0 <= i < children.len() && children[i].spec.name@ == name && forall|j: int|
                    0 <= j < i ==> children[j].spec.name@ != name,
        )
    } else {
        None
    }
}

/// A child after its restart completed: normal mode, started at `now`;
/// its specification and restart count are kept.
pub open spec fn restarted_child(c: ChildState, now: u64) -> ChildState {
    ChildState { spec: c.spec, mode: ChildMode::Normal, last_start: Some(now), restart_count: c.restart_count }
}

/// A child whose restart began: restarting mode, one restart more; its
/// specification and start time are kept.
pub open spec fn restarting_child(c: ChildState) -> ChildState {
    ChildState {
        spec: c.spec,
        mode: ChildMode::Restarting,
        last_start: c.last_start,
        restart_count: (c.restart_count + 1) as u64,
    }
}

/// The first child with a name is the one a scan from the front stops at.
pub proof fn lemma_first_child(children: Seq<ChildState>, c: int, name: Seq<char>)
    requires
        0 <= c < children.len(),
        children[c].spec.name@ == name,
        forall|j: int| 0 <= j < c ==> children[j].spec.name@ != name,
    ensures
        first_child(children, name) == Some(c),
{
    let k = choose|k: int|
        0 <= k < children.len() && children[k].spec.name@ == name && forall|j: int|
            0 <= j < k ==> children[j].spec.name@ != name;
    if k < c {
        assert(children[k].spec.name@ != name);
    } else if k > c {
        assert(children[c].spec.name@ != name);
    }
}

/// A registry of supervisors keyed by name, consulted for module-tier
/// healing decisions.
#[derive(Debug)]
pub struct SupervisorTree {
    supervisors: Vec<SupervisorState>,
}

impl SupervisorTree {
    /// The registered supervisors, in registration order.
    pub closed spec fn states(&self) -> Seq<SupervisorState> {
        self.supervisors@
    }

    /// The registered supervisor names.
    pub open spec fn names(&self) -> Seq<Seq<char>> {
        self.states().map_values(|s: SupervisorState| s.spec.name@)
    }

    /// Supervisor names are distinct.
    pub open spec fn wf(&self) -> bool {
        self.names().no_duplicates()
    }

    /// The state of the supervisor named `name`, if registered.
    pub open spec fn lookup(&self, name: Seq<char>) -> Option<SupervisorState> {
        match index_of_name(self.names(), name) {
            Some(i) => Some(self.states()[i]),
            None => None,
        }
    }

    /// An empty registry.
    pub fn new() -> (t: Self)
        ensures
            t.states().len() == 0,
            t.wf(),
    {
        let t = SupervisorTree { supervisors: Vec::new() };
        assert(t.names() =~= Seq::<Seq<char>>::empty());
        t
    }

    fn find(&self, name: &str) -> (r: Option<usize>)
        ensures
            match r {
                Some(i) => i < self.states().len() && self.names()[i as int] == name@ && forall|
                    j: int,
                | 0 <= j < i ==> self.names()[j] != name@,
                None => forall|j: int| 0 <= j < self.states().len() ==> self.names()[j] != name@,
            },
    {
        let mut i: usize = 0;
        while i < self.supervisors.len()
            invariant
                0 <= i <= self.supervisors.len(),
                forall|j: int| 0 <= j < i ==> self.names()[j] != name@,
            decreases self.supervisors.len() - i,
        {
            if crate::text::str_eq(self.supervisors[i].spec.name.as_str(), name) {
                return Some(i);
            }
            i = i + 1;
        }
        None
    }

    /// Registers a supervisor, started at `now`: every child starts in
    /// normal mode with no restarts. Re-registering a name replaces its
    /// state.
    pub fn register_supervisor(&mut self, spec: SupervisorSpec, now: u64)
        requires
            old(self).wf(),
        ensures
            final(self).wf(),
            final(self).lookup(spec.name@) is Some,
            ({
                let st = final(self).lookup(spec.name@).unwrap();
                &&& st.spec.name == spec.name
                &&& st.spec.strategy == spec.strategy
                &&& st.spec.max_restarts == spec.max_restarts
                &&& st.spec.max_time == spec.max_time
                &&& st.spec.children@ == spec.children@
                &&& st.children@.len() == spec.children@.len()
                &&& forall|k: int|
                    0 <= k < st.children@.len() ==> (#[trigger] st.children@[k]).spec
                        == spec.children@[k] && st.children@[k].mode == ChildMode::Normal
                        && st.children@[k].last_start == Some(now) && st.children@[k].restart_count
                        == 0
                &&& st.recent_restarts@.len() == 0
                &&& st.alive
            }),
            forall|n: Seq<char>| n != spec.name@ ==> #[trigger] final(self).lookup(n) == old(
                self,
            ).lookup(n),
    {
        let mut children: Vec<ChildState> = Vec::new();
        let mut i: usize = 0;
        while i < spec.children.len()
            invariant
                0 <= i <= spec.children.len(),
                children@.len() == i,
                forall|k: int|
                    0 <= k < i ==> (#[trigger] children@[k]).spec == spec.children@[k]
                        && children@[k].mode == ChildMode::Normal && children@[k].last_start
                        == Some(now) && children@[k].restart_count == 0,
            decreases spec.children.len() - i,
        {
            children.push(
                ChildState {
                    spec: spec.children[i].clone(),
                    mode: ChildMode::Normal,
                    last_start: Some(now),
                    restart_count: 0,
                },
            );
            i = i + 1;
        }
        let found = self.find(spec.name.as_str());
        let state = SupervisorState {
            spec,
            children,
            recent_restarts: Vec::new(),
            alive: true,
        };
        let ghost st = state;
        match found {
            Some(idx) => {
                self.supervisors.set(idx, state);
                proof {
                    assert(self.names() =~= old(self).names().update(idx as int, st.spec.name@));
                    lemma_index_after_update(old(self).names(), idx as int, st.spec.name@);
                }
            },
            None => {
                self.supervisors.push(state);
                proof {
                    assert(self.names() =~= old(self).names().push(st.spec.name@));
                    lemma_index_after_push(old(self).names(), st.spec.name@);
                }
            },
        }
    }

    /// Records a restart of `child` under `supervisor` at `now`: restarts
    /// older than the supervisor's window are forgotten, this one is added,
    /// the child (if it exists) counts one more restart and enters
    /// restarting mode. Returns `true` when the restarts in the window
    /// exceed the bound, so the supervisor gives up and escalates; an
    /// unknown supervisor returns `false`.
    #[verifier::spinoff_prover]
    #[verifier::rlimit(40)]
    pub fn record_child_restart(&mut self, supervisor: &str, child: &str, now: u64) -> (exceeded:
        bool)
        requires
            old(self).wf(),
            old(self).lookup(supervisor@) is Some ==> forall|k: int|
                0 <= k < old(self).lookup(supervisor@).unwrap().children@.len() ==> (#[trigger] old(
                    self,
                ).lookup(supervisor@).unwrap().children@[k]).restart_count < u64::MAX,
        ensures
            final(self).wf(),
            old(self).lookup(supervisor@) is None ==> !exceeded && final(self).states() == old(
                self,
            ).states(),
            old(self).lookup(supervisor@) is Some ==> {
                let before = old(self).lookup(supervisor@).unwrap();
                let after = final(self).lookup(supervisor@).unwrap();
                let kept = restarts_in_window(before.recent_restarts@, now, before.spec.max_time);
                &&& final(self).lookup(supervisor@) is Some
                &&& after.recent_restarts@ == kept.push(now)
                &&& exceeded == ((kept.len() + 1) as u32 > before.spec.max_restarts)
                &&& after.spec == before.spec
                &&& after.alive == before.alive
                &&& after.children@ == (match first_child(before.children@, child@) {
                    Some(c) => before.children@.update(c, restarting_child(before.children@[c])),
                    None => before.children@,
                })
            },
            forall|n: Seq<char>| n != supervisor@ ==> #[trigger] final(self).lookup(n) == old(
                self,
            ).lookup(n),
    {
        let found = self.find(supervisor);
        let idx = match found {
            None => {
                proof {
                    lemma_lookup_none(self.names(), supervisor@);
                }
                return false;
            },
            Some(i) => i,
        };
        proof {
            lemma_lookup_first(self.names(), idx as int, supervisor@);
        }
        let ghost before = self.supervisors@[idx as int];
        let ghost old_names = self.names();
        let mut st = self.supervisors.remove(idx);
        let window = st.spec.max_time;
        let mut kept: Vec<u64> = Vec::new();
        let mut i: usize = 0;
        while i < st.recent_restarts.len()
            invariant
                0 <= i <= st.recent_restarts.len(),
                st.recent_restarts@ == before.recent_restarts@,
                window == before.spec.max_time,
                kept@ == restarts_in_window(st.recent_restarts@.take(i as int), now, window),
            decreases st.recent_restarts.len() - i,
        {
            let t = st.recent_restarts[i];
            let elapsed = now.saturating_sub(t);
            proof {
                reveal(Seq::filter);
                assert(st.recent_restarts@.take(i + 1).drop_last() == st.recent_restarts@.take(
                    i as int,
                ));
                assert(st.recent_restarts@.take(i + 1).last() == t);
            }
            if (elapsed as u128) < (window as u128) * 1000000000u128 {
                kept.push(t);
            }
            i = i + 1;
        }
        proof {
            assert(st.recent_restarts@.take(i as int) == st.recent_restarts@);
        }
        let ghost kept_view = kept@;
        kept.push(now);
        st.recent_restarts = kept;
        let mut c: usize = 0;
        while c < st.children.len()
            invariant
                0 <= c <= st.children.len(),
                st.children@ == before.children@,
                forall|j: int| 0 <= j < c ==> st.children@[j].spec.name@ != child@,
            ensures
                0 <= c <= st.children.len(),
                st.children@ == before.children@,
                forall|j: int| 0 <= j < c ==> st.children@[j].spec.name@ != child@,
                c < st.children.len() ==> st.children@[c as int].spec.name@ == child@,
            decreases st.children.len() - c,
        {
            if crate::text::str_eq(st.children[c].spec.name.as_str(), child) {
                break ;
            }
            c = c + 1;
        }
        if c < st.children.len() {
            proof {
                lemma_first_child(before.children@, c as int, child@);
            }
            let mut cs = st.children.remove(c);
            assert(cs.restart_count < u64::MAX);
            cs.restart_count = cs.restart_count + 1;
            cs.mode = ChildMode::Restarting;
            let ghost changed = cs;
            st.children.insert(c, cs);
            proof {
                assert(changed == restarting_child(before.children@[c as int]));
                assert(st.children@ =~= before.children@.update(c as int, changed));
            }
        } else {
            proof {
                assert(first_child(before.children@, child@) is None);
            }
        }
        let exceeded = (st.recent_restarts.len() as u32) > st.spec.max_restarts;
        let ghost after = st;
        self.supervisors.insert(idx, st);
        proof {
            assert(self.supervisors@ =~= old(self).supervisors@.update(idx as int, after));
            assert(self.names() =~= old_names);
            lemma_lookup_first(self.names(), idx as int, supervisor@);
            assert(after.recent_restarts@ == kept_view.push(now));
        }
        exceeded
    }

    /// Marks `child` of `supervisor` as restarted at `now`: back to normal
    /// mode with a new start time. Unknown names change nothing.
    #[verifier::spinoff_prover]
    #[verifier::rlimit(40)]
    pub fn child_restarted(&mut self, supervisor: &str, child: &str, now: u64)
        requires
            old(self).wf(),
        ensures
            final(self).wf(),
            forall|n: Seq<char>| #[trigger] final(self).lookup(n) is Some <==> old(self).lookup(
                n,
            ) is Some,
            forall|n: Seq<char>| n != supervisor@ ==> #[trigger] final(self).lookup(n) == old(
                self,
            ).lookup(n),
            old(self).lookup(supervisor@) is None ==> final(self).states() == old(self).states(),
            old(self).lookup(supervisor@) is Some ==> {
                let before = old(self).lookup(supervisor@).unwrap();
                let after = final(self).lookup(supervisor@).unwrap();
                &&& after.spec == before.spec
                &&& after.recent_restarts == before.recent_restarts
                &&& after.alive == before.alive
                &&& after.children@ == (match first_child(before.children@, child@) {
                    Some(c) => before.children@.update(
                        c,
                        restarted_child(before.children@[c], now),
                    ),
                    None => before.children@,
                })
            },
    {
        let found = self.find(supervisor);
        let idx = match found {
            None => {
                proof {
                    lemma_lookup_none(self.names(), supervisor@);
                }
                return ;
            },
            Some(i) => i,
        };
        proof {
            lemma_lookup_first(self.names(), idx as int, supervisor@);
        }
        let ghost old_names = self.names();
        let mut st = self.supervisors.remove(idx);
        let ghost before = st;
        let mut c: usize = 0;
        while c < st.children.len()
            invariant
                0 <= c <= st.children.len(),
                st.children@ == before.children@,
                st.spec == before.spec,
                st.recent_restarts == before.recent_restarts,
                st.alive == before.alive,
                forall|j: int| 0 <= j < c ==> st.children@[j].spec.name@ != child@,
            ensures
                0 <= c <= st.children.len(),
                st.children@ == before.children@,
                st.spec == before.spec,
                st.recent_restarts == before.recent_restarts,
                st.alive == before.alive,
                forall|j: int| 0 <= j < c ==> st.children@[j].spec.name@ != child@,
                c < st.children.len() ==> st.children@[c as int].spec.name@ == child@,
            decreases st.children.len() - c,
        {
            if crate::text::str_eq(st.children[c].spec.name.as_str(), child) {
                break ;
            }
            c = c + 1;
        }
        if c < st.children.len() {
            proof {
                lemma_first_child(before.children@, c as int, child@);
            }
            let mut cs = st.children.remove(c);
            cs.mode = ChildMode::Normal;
            cs.last_start = Some(now);
            let ghost changed = cs;
            st.children.insert(c, cs);
            proof {
                assert(changed == restarted_child(before.children@[c as int], now));
                assert(st.children@ =~= before.children@.update(c as int, changed));
            }
        } else {
            proof {
                assert(first_child(before.children@, child@) is None);
            }
        }
        let ghost after = st;
        self.supervisors.insert(idx, st);
        proof {
            assert(self.supervisors@ =~= old(self).supervisors@.update(idx as int, after));
            assert(self.names() =~= old_names);
            lemma_lookup_first(self.names(), idx as int, supervisor@);
        }
    }

    /// The supervisor named `name`, if registered.
    pub fn get(&self, name: &str) -> (r: Option<&SupervisorState>)
        requires
            self.wf(),
        ensures
            match r {
                Some(st) => self.lookup(name@) == Some(*st),
                None => self.lookup(name@) is None,
            },
    {
        match self.find(name) {
            Some(i) => {
                proof {
                    lemma_lookup_first(self.names(), i as int, name@);
                }
                Some(&self.supervisors[i])
            },
            None => {
                proof {
                    lemma_lookup_none(self.names(), name@);
                }
                None
            },
        }
    }

    /// Every registered supervisor name, in registration order.
    pub fn supervisor_names(&self) -> (names: Vec<String>)
        ensures
            names@.len() == self.names().len(),
            forall|k: int| 0 <= k < names@.len() ==> (#[trigger] names@[k])@ == self.names()[k],
    {
        let mut names: Vec<String> = Vec::new();
        let mut i: usize = 0;
        while i < self.supervisors.len()
            invariant
                0 <= i <= self.supervisors.len(),
                names@.len() == i,
                forall|k: int| 0 <= k < i ==> (#[trigger] names@[k])@ == self.names()[k],
            decreases self.supervisors.len() - i,
        {
            names.push(self.supervisors[i].spec.name.clone());
            i = i + 1;
        }
        names
    }

    /// The children of `supervisor`, in start order; empty for an unknown
    /// supervisor.
    pub fn children(&self, supervisor: &str) -> (r: Vec<ChildState>)
        requires
            self.wf(),
        ensures
            match self.lookup(supervisor@) {
                Some(st) => r@ == st.children@,
                None => r@.len() == 0,
            },
    {
        match self.get(supervisor) {
            None => Vec::new(),
            Some(st) => {
                let mut out: Vec<ChildState> = Vec::new();
                let mut i: usize = 0;
                while i < st.children.len()
                    invariant
                        0 <= i <= st.children.len(),
                        out@ == st.children@.take(i as int),
                    decreases st.children.len() - i,
                {
                    let c = &st.children[i];
                    let copy = ChildState {
                        spec: c.spec.clone(),
                        mode: c.mode,
                        last_start: c.last_start,
                        restart_count: c.restart_count,
                    };
                    out.push(copy);
                    proof {
                        assert(out@ =~= st.children@.take(i + 1));
                    }
                    i = i + 1;
                }
                proof {
                    assert(st.children@.take(st.children@.len() as int) =~= st.children@);
                }
                out
            },
        }
    }

    /// The names of the children of `supervisor`, in start order; empty for
    /// an unknown supervisor.
    pub fn hierarchy_children(&self, supervisor: &str) -> (names: Vec<String>)
        requires
            self.wf(),
        ensures
            match self.lookup(supervisor@) {
                Some(st) => names@.len() == st.spec.children@.len() && forall|k: int|
                    0 <= k < names@.len() ==> (#[trigger] names@[k])@
                        == st.spec.children@[k].name@,
                None => names@.len() == 0,
            },
    {
        match self.get(supervisor) {
            None => Vec::new(),
            Some(st) => {
                let mut names: Vec<String> = Vec::new();
                let mut i: usize = 0;
                while i < st.spec.children.len()
                    invariant
                        0 <= i <= st.spec.children.len(),
                        names@.len() == i,
                        forall|k: int|
                            0 <= k < i ==> (#[trigger] names@[k])@ == st.spec.children@[k].name@,
                    decreases st.spec.children.len() - i,
                {
                    names.push(st.spec.children[i].name.clone());
                    i = i + 1;
                }
                names
            },
        }
    }
}

/// With distinct names, the first index holding a name is where lookup
/// finds it.
pub proof fn lemma_lookup_first(names: Seq<Seq<char>>, i: int, name: Seq<char>)
    requires
        names.no_duplicates(),
        0 <= i < names.len(),
        names[i] == name,
    ensures
        index_of_name(names, name) == Some(i),
{
    let k = choose|k: int| 0 <= k < names.len() && names[k] == name;
    if k != i {
        assert(names[k] == names[i]);
    }
}

/// A name held nowhere is not found.
pub proof fn lemma_lookup_none(names: Seq<Seq<char>>, name: Seq<char>)
    requires
        forall|j: int| 0 <= j < names.len() ==> names[j] != name,
    ensures
        index_of_name(names, name) is None,
{
}

/// After replacing the entry at `i` with the same name the index of each
/// name is unchanged.
pub proof fn lemma_index_after_update(names: Seq<Seq<char>>, i: int, name: Seq<char>)
    requires
        0 <= i < names.len(),
        names[i] == name,
        names.no_duplicates(),
    ensures
        names.update(i, name) == names,
{
    assert(names.update(i, name) =~= names);
}

/// Appending a new name keeps the names distinct and leaves the index of
/// every other name unchanged.
pub proof fn lemma_index_after_push(names: Seq<Seq<char>>, name: Seq<char>)
    requires
        names.no_duplicates(),
        forall|j: int| 0 <= j < names.len() ==> names[j] != name,
    ensures
        names.push(name).no_duplicates(),
        index_of_name(names.push(name), name) == Some(names.len() as int),
        forall|n: Seq<char>| n != name ==> #[trigger] index_of_name(names.push(name), n) == index_of_name(names, n),
{
    let p = names.push(name);
    assert forall|a: int, b: int| 0 <= a < p.len() && 0 <= b < p.len() && a != b implies p[a] != p[b] by {
        if a < names.len() && b < names.len() {
            assert(p[a] == names[a] && p[b] == names[b]);
        }
    }
    assert(p[names.len() as int] == name);
    assert forall|n: Seq<char>| n != name implies #[trigger] index_of_name(p, n) == index_of_name(names, n) by {
        if exists|i: int| 0 <= i < names.len() && names[i] == n {
            let i = choose|i: int| 0 <= i < names.len() && names[i] == n;
            assert(p[i] == n);
            let k = choose|k: int| 0 <= k < p.len() && p[k] == n;
            if k != i {
                assert(p[k] == p[i]);
            }
        }
        if exists|k: int| 0 <= k < p.len() && p[k] == n {
            let k = choose|k: int| 0 <= k < p.len() && p[k] == n;
            assert(k < names.len());
            assert(names[k] == n);
        }
    }
    let k = choose|k: int| 0 <= k < p.len() && p[k] == name;
    if k != names.len() {
        assert(names[k] == name);
    }
}

} // verus!

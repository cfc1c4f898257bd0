//! Reversible execution: a small integer register file whose every write is
//! logged in a write-ahead undo journal, so that a guarded region can be
//! rewound to a checkpoint with no trace of the attempt left behind, or
//! committed once it is known to be good.
use std::collections::HashMap;
use vstd::prelude::*;

verus! {

/// A named register of the reversible file.
#[derive(Debug, Clone, Copy, PartialEq, Eq, Hash, PartialOrd, Ord, Structural)]
pub struct Register(pub u32);

/// A handle to a checkpoint: an identity unique among the checkpoints its
/// file opened, and the journal length at the time it was opened.
#[derive(Debug, Clone, Copy, PartialEq, Eq, Structural)]
pub struct Checkpoint {
    id: u64,
    index: usize,
}

impl Checkpoint {
    /// The checkpoint's identity within its file.
    pub closed spec fn id(&self) -> u64 {
        self.id
    }

    /// The journal length when the checkpoint was opened.
    pub closed spec fn position(&self) -> usize {
        self.index
    }
}

/// One logged write: the register and the value it held before (`None`
/// when it did not exist yet).
#[derive(Debug, Clone, Copy)]
struct LogEntry {
    register: Register,
    previous: Option<i64>,
}

/// The registers as they were before the journal entries past position `k`
/// were made: entries are undone newest first, restoring each previous value
/// and removing registers that did not exist before.
pub open spec fn undo_to(values: Map<u32, i64>, journal: Seq<(u32, Option<i64>)>, k: int) -> Map<
    u32,
    i64,
>
    decreases journal.len(),
{
    if journal.len() == 0 || journal.len() <= k {
        values
    } else {
        let (reg, previous) = journal.last();
        let restored = match previous {
            Some(p) => values.insert(reg, p),
            None => values.remove(reg),
        };
        undo_to(restored, journal.drop_last(), k)
    }
}

/// The journal entry a write of `reg` logs against the registers `values`.
pub open spec fn log_of(values: Map<u32, i64>, reg: u32) -> (u32, Option<i64>) {
    if values.contains_key(reg) {
        (reg, Some(values[reg]))
    } else {
        (reg, None)
    }
}

/// The registers and journal after the writes `ws`, in order.
pub open spec fn apply_writes(
    values: Map<u32, i64>,
    journal: Seq<(u32, Option<i64>)>,
    ws: Seq<(u32, i64)>,
) -> (Map<u32, i64>, Seq<(u32, Option<i64>)>)
    decreases ws.len(),
{
    if ws.len() == 0 {
        (values, journal)
    } else {
        let (reg, v) = ws[0];
        apply_writes(values.insert(reg, v), journal.push(log_of(values, reg)), ws.drop_first())
    }
}

/// A write leaves every earlier state of the journal intact: undoing back to
/// a position at or before the write gives what it gave before.
pub proof fn law_write_keeps_history(
    values: Map<u32, i64>,
    journal: Seq<(u32, Option<i64>)>,
    reg: u32,
    v: i64,
    k: int,
)
    requires
        k <= journal.len(),
    ensures
        undo_to(values.insert(reg, v), journal.push(log_of(values, reg)), k) == undo_to(
            values,
            journal,
            k,
        ),
{
    let j2 = journal.push(log_of(values, reg));
    assert(j2.drop_last() =~= journal);
    if values.contains_key(reg) {
        assert(values.insert(reg, v).insert(reg, values[reg]) =~= values);
    } else {
        assert(values.insert(reg, v).remove(reg) =~= values);
    }
}

/// Rolling back undoes every write made since the checkpoint: whatever was
/// written after it, undoing to the checkpoint's position gives back exactly
/// the registers as they were when it was opened.
pub proof fn law_rollback_undoes_writes(
    values: Map<u32, i64>,
    journal: Seq<(u32, Option<i64>)>,
    ws: Seq<(u32, i64)>,
)
    ensures
        undo_to(apply_writes(values, journal, ws).0, apply_writes(values, journal, ws).1, journal.len() as int)
            == values,
        apply_writes(values, journal, ws).1.len() == journal.len() + ws.len(),
        apply_writes(values, journal, ws).1.take(journal.len() as int) == journal,
    decreases ws.len(),
{
    if ws.len() == 0 {
        assert(journal.take(journal.len() as int) =~= journal);
    } else {
        let (reg, v) = ws[0];
        let v2 = values.insert(reg, v);
        let j2 = journal.push(log_of(values, reg));
        law_rollback_undoes_writes(v2, j2, ws.drop_first());
        let fin = apply_writes(v2, j2, ws.drop_first());
        lemma_undo_steps(fin.0, fin.1, j2.len() as int, journal.len() as int);
        assert(fin.1.take(j2.len() as int) == j2);
        law_write_keeps_history(values, journal, reg, v, journal.len() as int);
        assert(undo_to(v2, j2, journal.len() as int) == values) by {
            assert(j2.drop_last() =~= journal);
            if values.contains_key(reg) {
                assert(v2.insert(reg, values[reg]) =~= values);
            } else {
                assert(v2.remove(reg) =~= values);
            }
        }
        assert(fin.1.take(journal.len() as int) =~= journal) by {
            assert(fin.1.take(j2.len() as int) == j2);
            assert forall|i: int| 0 <= i < journal.len() implies fin.1[i] == journal[i] by {
                assert(fin.1.take(j2.len() as int)[i] == j2[i]);
            }
        }
    }
}

/// Undoing to `k` can go through any intermediate position `m >= k` whose
/// prefix is kept.
pub proof fn lemma_undo_steps(values: Map<u32, i64>, journal: Seq<(u32, Option<i64>)>, m: int, k: int)
    requires
        0 <= k <= m <= journal.len(),
    ensures
        undo_to(values, journal, k) == undo_to(
            undo_to(values, journal, m),
            journal.take(m),
            k,
        ),
    decreases journal.len(),
{
    if journal.len() == m {
        assert(journal.take(m) =~= journal);
    } else {
        let (reg, previous) = journal.last();
        let restored = match previous {
            Some(p) => values.insert(reg, p),
            None => values.remove(reg),
        };
        lemma_undo_steps(restored, journal.drop_last(), m, k);
        assert(journal.drop_last().take(m) =~= journal.take(m));
    }
}

/// A single-threaded file of integer registers with a write-ahead undo
/// journal and the checkpoints still open on it, each by its identity and
/// its current journal position.
#[derive(Debug)]
pub struct RegisterFile {
    values: HashMap<u32, i64>,
    journal: Vec<LogEntry>,
    checkpoints: Vec<(u64, usize)>,
    next_id: u64,
}

/// The open checkpoints with their positions shifted down by `cut`.
pub open spec fn shifted(entries: Seq<(u64, usize)>, cut: int) -> Seq<(u64, usize)> {
    entries.map_values(|e: (u64, usize)| (e.0, shift_down(e.1, cut)))
}

impl RegisterFile {
    /// The current register values.
    pub closed spec fn values(&self) -> Map<u32, i64> {
        self.values@
    }

    /// The undo journal, oldest first: each register written and the value
    /// it held before.
    pub closed spec fn journal(&self) -> Seq<(u32, Option<i64>)> {
        self.journal@.map_values(|e: LogEntry| (e.register.0, e.previous))
    }

    /// The checkpoints still open, oldest first: each identity with its
    /// current journal position.
    pub closed spec fn open_entries(&self) -> Seq<(u64, usize)> {
        self.checkpoints@
    }

    /// How many checkpoints the file has opened; the next one gets this
    /// identity.
    pub closed spec fn opened(&self) -> u64 {
        self.next_id
    }

    /// The journal positions of the checkpoints still open, oldest first.
    pub open spec fn open_checkpoints(&self) -> Seq<usize> {
        self.open_entries().map_values(|e: (u64, usize)| e.1)
    }

    /// Every open checkpoint lies within the journal, and open checkpoints
    /// have distinct identities, each given out already.
    pub open spec fn wf(&self) -> bool {
        &&& forall|i: int|
            0 <= i < self.open_entries().len() ==> #[trigger] self.open_entries()[i].1
                <= self.journal().len()
        &&& forall|i: int|
            0 <= i < self.open_entries().len() ==> #[trigger] self.open_entries()[i].0
                < self.opened()
        &&& forall|i: int, j: int|
            0 <= i < j < self.open_entries().len() ==> #[trigger] self.open_entries()[i].0
                != #[trigger] self.open_entries()[j].0
    }

    /// Where `cp` stands among the open checkpoints, if it is still open.
    pub open spec fn open_slot(&self, cp: Checkpoint) -> Option<int> {
        if exists|i: int| 0 <= i < self.open_entries().len() && self.open_entries()[i].0 == cp.id() {
            Some(
                choose|i: int|
                    0 <= i < self.open_entries().len() && self.open_entries()[i].0 == cp.id(),
            )
        } else {
            None
        }
    }

    /// The journal position a rollback to `cp` rewinds to: an open
    /// checkpoint's current position, else the position it was opened at.
    pub open spec fn rewind_point(&self, cp: Checkpoint) -> int {
        match self.open_slot(cp) {
            Some(i) => self.open_entries()[i].1 as int,
            None => cp.position() as int,
        }
    }

    /// The registers as they were at journal position `k`.
    pub open spec fn state_at(&self, k: int) -> Map<u32, i64> {
        undo_to(self.values(), self.journal(), k)
    }

    /// An open checkpoint is found at the one slot holding its identity.
    pub proof fn lemma_open_slot(&self, cp: Checkpoint, i: int)
        requires
            self.wf(),
            0 <= i < self.open_entries().len(),
            self.open_entries()[i].0 == cp.id(),
        ensures
            self.open_slot(cp) == Some(i),
    {
        let k = choose|k: int| 0 <= k < self.open_entries().len() && self.open_entries()[k].0 == cp.id();
        if k < i {
            assert(self.open_entries()[k].0 != self.open_entries()[i].0);
        } else if k > i {
            assert(self.open_entries()[i].0 != self.open_entries()[k].0);
        }
    }

    /// A fresh register file with no pending checkpoints.
    pub fn new() -> (rf: Self)
        ensures
            rf.values() == Map::<u32, i64>::empty(),
            rf.journal() == Seq::<(u32, Option<i64>)>::empty(),
            rf.open_entries() == Seq::<(u64, usize)>::empty(),
            rf.opened() == 0,
            rf.wf(),
    {
        let rf = RegisterFile {
            values: HashMap::new(),
            journal: Vec::new(),
            checkpoints: Vec::new(),
            next_id: 0,
        };
        assert(rf.journal() =~= Seq::<(u32, Option<i64>)>::empty());
        rf
    }

    /// The current value of `register`, if it has ever been written (and not
    /// rolled away).
    pub fn read(&self, register: Register) -> (r: Option<i64>)
        ensures
            r == (if self.values().contains_key(register.0) {
                Some(self.values()[register.0])
            } else {
                None
            }),
    {
        match self.values.get(&register.0) {
            Some(v) => Some(*v),
            None => None,
        }
    }

    /// The current value of `register`, or `fallback` if it holds none.
    pub fn read_or(&self, register: Register, fallback: i64) -> (r: i64)
        ensures
            r == (if self.values().contains_key(register.0) {
                self.values()[register.0]
            } else {
                fallback
            }),
    {
        match self.read(register) {
            Some(v) => v,
            None => fallback,
        }
    }

    /// Writes `value` to `register`, logging the prior value first.
    pub fn write(&mut self, register: Register, value: i64)
        requires
            old(self).wf(),
        ensures
            final(self).wf(),
            final(self).values() == old(self).values().insert(register.0, value),
            final(self).journal() == old(self).journal().push(
                log_of(old(self).values(), register.0),
            ),
            final(self).open_entries() == old(self).open_entries(),
            final(self).opened() == old(self).opened(),
    {
        let previous = self.values.insert(register.0, value);
        self.journal.push(LogEntry { register, previous });
        proof {
            assert(self.journal() =~= old(self).journal().push(
                log_of(old(self).values(), register.0),
            ));
            assert forall|i: int|
                0 <= i < self.open_entries().len() implies #[trigger] self.open_entries()[i].1
                <= self.journal().len() by {
                assert(old(self).open_entries()[i].1 <= old(self).journal().len());
            }
        }
    }

    /// Opens a checkpoint at the current end of the journal, under the next
    /// identity.
    pub fn checkpoint(&mut self) -> (cp: Checkpoint)
        requires
            old(self).wf(),
            old(self).opened() < u64::MAX,
        ensures
            final(self).wf(),
            cp.id() == old(self).opened(),
            cp.position() == old(self).journal().len(),
            final(self).values() == old(self).values(),
            final(self).journal() == old(self).journal(),
            final(self).open_entries() == old(self).open_entries().push(
                (old(self).opened(), old(self).journal().len() as usize),
            ),
            final(self).opened() == old(self).opened() + 1,
    {
        let index = self.journal.len();
        let id = self.next_id;
        self.checkpoints.push((id, index));
        self.next_id = id + 1;
        proof {
            let n = old(self).open_entries().len();
            assert forall|i: int|
                0 <= i < self.open_entries().len() implies #[trigger] self.open_entries()[i].1
                <= self.journal().len() by {
                if i < n {
                    assert(old(self).open_entries()[i].1 <= old(self).journal().len());
                }
            }
            assert forall|i: int|
                0 <= i < self.open_entries().len() implies #[trigger] self.open_entries()[i].0
                < self.opened() by {
                if i < n {
                    assert(old(self).open_entries()[i].0 < old(self).opened());
                }
            }
            assert forall|i: int, j: int|
                0 <= i < j < self.open_entries().len() implies #[trigger] self.open_entries()[i].0
                != #[trigger] self.open_entries()[j].0 by {
                if j < n {
                    assert(old(self).open_entries()[i].0 != old(self).open_entries()[j].0);
                } else {
                    assert(old(self).open_entries()[i].0 < old(self).opened());
                }
            }
        }
        Checkpoint { id, index }
    }

    /// Finds the slot of an open checkpoint by its identity.
    fn find_open(&self, checkpoint: Checkpoint) -> (r: Option<usize>)
        requires
            self.wf(),
        ensures
            match r {
                Some(i) => self.open_slot(checkpoint) == Some(i as int) && i
                    < self.open_entries().len(),
                None => self.open_slot(checkpoint) is None,
            },
    {
        let mut pos: usize = 0;
        while pos < self.checkpoints.len()
            invariant
                0 <= pos <= self.checkpoints.len(),
                self.wf(),
                forall|i: int| 0 <= i < pos ==> self.checkpoints@[i].0 != checkpoint.id,
            decreases self.checkpoints.len() - pos,
        {
            if self.checkpoints[pos].0 == checkpoint.id {
                proof {
                    self.lemma_open_slot(checkpoint, pos as int);
                }
                return Some(pos);
            }
            pos = pos + 1;
        }
        None
    }

    /// Commits `checkpoint`: the journal before its current position is
    /// discarded (the writes stay), the checkpoint and every one opened
    /// before it close, and the later ones stay open, shifted to the
    /// shortened journal. A checkpoint that is not open leaves the file
    /// unchanged.
    pub fn commit(&mut self, checkpoint: Checkpoint)
        requires
            old(self).wf(),
        ensures
            final(self).wf(),
            final(self).values() == old(self).values(),
            final(self).opened() == old(self).opened(),
            old(self).open_slot(checkpoint) is None ==> {
                &&& final(self).journal() == old(self).journal()
                &&& final(self).open_entries() == old(self).open_entries()
            },
            old(self).open_slot(checkpoint) matches Some(i) ==> {
                let cut = old(self).open_entries()[i].1 as int;
                &&& final(self).journal() == old(self).journal().skip(cut)
                &&& final(self).open_entries() == shifted(old(self).open_entries().skip(i + 1), cut)
            },
    {
        let pos = match self.find_open(checkpoint) {
            None => {
                return ;
            },
            Some(p) => p,
        };
        assert(pos < self.checkpoints.len());
        let ghost old_journal = self.journal();
        let cut = self.checkpoints[pos].1;
        proof {
            assert(self.open_entries()[pos as int].1 <= self.journal().len());
        }
        let mut journal: Vec<LogEntry> = Vec::new();
        let mut i: usize = cut;
        while i < self.journal.len()
            invariant
                cut <= i <= self.journal.len(),
                journal@ == self.journal@.subrange(cut as int, i as int),
            decreases self.journal.len() - i,
        {
            journal.push(self.journal[i]);
            i = i + 1;
            proof {
                assert(journal@ =~= self.journal@.subrange(cut as int, i as int));
            }
        }
        let mut open: Vec<(u64, usize)> = Vec::new();
        let mut j: usize = pos + 1;
        while j < self.checkpoints.len()
            invariant
                pos + 1 <= j <= self.checkpoints.len(),
                open@ == shifted(self.checkpoints@.subrange(pos + 1, j as int), cut as int),
            decreases self.checkpoints.len() - j,
        {
            let e = self.checkpoints[j];
            open.push((e.0, e.1.saturating_sub(cut)));
            j = j + 1;
            proof {
                assert(open@ =~= shifted(self.checkpoints@.subrange(pos + 1, j as int), cut as int));
            }
        }
        self.journal = journal;
        self.checkpoints = open;
        proof {
            assert(self.journal() =~= old_journal.skip(cut as int));
            assert(self.checkpoints@ =~= shifted(old(self).checkpoints@.skip(pos + 1), cut as int));
            let olde = old(self).open_entries();
            assert forall|k: int|
                0 <= k < self.open_entries().len() implies #[trigger] self.open_entries()[k].1
                <= self.journal().len() by {
                assert(olde[pos + 1 + k].1 <= old_journal.len());
            }
            assert forall|k: int|
                0 <= k < self.open_entries().len() implies #[trigger] self.open_entries()[k].0
                < self.opened() by {
                assert(olde[pos + 1 + k].0 < old(self).opened());
            }
            assert forall|a: int, b: int|
                0 <= a < b < self.open_entries().len() implies #[trigger] self.open_entries()[a].0
                != #[trigger] self.open_entries()[b].0 by {
                assert(olde[pos + 1 + a].0 != olde[pos + 1 + b].0);
            }
        }
    }

    /// Undoes every write after `checkpoint`, restoring each register to its
    /// value at that point; registers created since are removed. An open
    /// checkpoint rewinds to its current position (shifted by any commit
    /// since it was opened); one no longer open rewinds to the position it
    /// was opened at. Checkpoints past the rewind point close.
    pub fn rollback_to(&mut self, checkpoint: Checkpoint)
        requires
            old(self).wf(),
            old(self).rewind_point(checkpoint) <= old(self).journal().len(),
        ensures
            final(self).wf(),
            final(self).opened() == old(self).opened(),
            final(self).values() == old(self).state_at(old(self).rewind_point(checkpoint)),
            final(self).journal() == old(self).journal().take(old(self).rewind_point(checkpoint)),
            final(self).open_entries() == old(self).open_entries().filter(
                |e: (u64, usize)| e.1 <= old(self).rewind_point(checkpoint),
            ),
    {
        broadcast use vstd::seq_lib::group_filter_ensures;

        let point: usize = match self.find_open(checkpoint) {
            Some(i) => self.checkpoints[i].1,
            None => checkpoint.index,
        };
        assert(point == old(self).rewind_point(checkpoint));
        let ghost target = old(self).state_at(point as int);
        while self.journal.len() > point
            invariant
                point <= self.journal.len(),
                undo_to(self.values(), self.journal(), point as int) == target,
                self.journal@ == old(self).journal@.take(self.journal.len() as int),
                self.journal.len() <= old(self).journal.len(),
                self.checkpoints@ == old(self).checkpoints@,
                self.next_id == old(self).next_id,
            decreases self.journal.len(),
        {
            let ghost before_values = self.values();
            let ghost before_journal = self.journal();
            let ghost before_raw = self.journal@;
            let entry = self.journal.pop().unwrap();
            match entry.previous {
                Some(prev) => {
                    self.values.insert(entry.register.0, prev);
                },
                None => {
                    self.values.remove(&entry.register.0);
                },
            }
            proof {
                assert(self.journal@ =~= before_raw.drop_last());
                assert(self.journal() =~= before_journal.drop_last());
                assert(before_journal.last() == (entry.register.0, entry.previous));
                assert(before_raw == old(self).journal@.take(self.journal.len() + 1));
                assert(old(self).journal@.take(self.journal.len() as int) =~= before_raw.drop_last());
            }
        }
        let mut kept: Vec<(u64, usize)> = Vec::new();
        let mut i: usize = 0;
        let ghost olde = old(self).open_entries();
        while i < self.checkpoints.len()
            invariant
                0 <= i <= self.checkpoints.len(),
                self.checkpoints@ == olde,
                olde == old(self).open_entries(),
                old(self).wf(),
                kept@ == olde.take(i as int).filter(|e: (u64, usize)| e.1 <= point),
                forall|k: int| 0 <= k < kept@.len() ==> #[trigger] kept@[k].1 <= point,
                forall|k: int|
                    0 <= k < kept@.len() ==> exists|m: int|
                        0 <= m < i && #[trigger] kept@[k] == olde[m],
                forall|a: int, b: int|
                    0 <= a < b < kept@.len() ==> #[trigger] kept@[a].0 != #[trigger] kept@[b].0,
            decreases self.checkpoints.len() - i,
        {
            let c = self.checkpoints[i];
            proof {
                reveal(Seq::filter);
                assert(olde.take(i + 1).drop_last() == olde.take(i as int));
            }
            if c.1 <= point {
                let ghost before = kept@;
                kept.push(c);
                proof {
                    assert forall|a: int, b: int|
                        0 <= a < b < kept@.len() implies #[trigger] kept@[a].0
                        != #[trigger] kept@[b].0 by {
                        if b == before.len() {
                            let m = choose|m: int| 0 <= m < i && before[a] == olde[m];
                            assert(olde[m].0 != olde[i as int].0);
                        } else {
                            assert(before[a].0 != before[b].0);
                        }
                    }
                    assert forall|k: int| 0 <= k < kept@.len() implies exists|m: int|
                        0 <= m < i + 1 && #[trigger] kept@[k] == olde[m] by {
                        if k == before.len() {
                            assert(kept@[k] == olde[i as int]);
                        } else {
                            let m = choose|m: int| 0 <= m < i && before[k] == olde[m];
                            assert(kept@[k] == olde[m]);
                        }
                    }
                }
            }
            i = i + 1;
        }
        proof {
            assert(olde.take(i as int) == olde);
            assert(self.journal() =~= old(self).journal().take(point as int));
            assert forall|k: int| 0 <= k < kept@.len() implies #[trigger] kept@[k].0
                < old(self).opened() by {
                let m = choose|m: int| 0 <= m < i && kept@[k] == olde[m];
                assert(olde[m].0 < old(self).opened());
            }
        }
        self.checkpoints = kept;
    }

    /// The number of pending (undoable) writes.
    pub fn pending(&self) -> (n: usize)
        ensures
            n == self.journal().len(),
    {
        self.journal.len()
    }
}

/// A journal position shifted down by the committed prefix length `cut`
/// (saturating at zero).
pub open spec fn shift_down(c: usize, cut: int) -> usize {
    if c >= cut {
        (c - cut) as usize
    } else {
        0
    }
}

} // verus!

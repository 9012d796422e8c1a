//! The scheduler state: the process table, the active process and PID allocation.

use crate::sched::process::Process;
use std::collections::BTreeMap;
use crate::state::setting::{lemma_value_after, run_of, value_after};
use vstd::prelude::*;

verus! {

broadcast use vstd::laws_cmp::group_laws_cmp;

/// The PID after `p`: PIDs are handed out in increasing order and wrap around.
pub open spec fn next_pid_after(p: i32) -> i32 {
    if p == i32::MAX {
        i32::MIN
    } else {
        (p + 1) as i32
    }
}

/// The PID handed out after `n` more, counting from `p`.
pub open spec fn pid_after(p: i32, n: nat) -> i32
    decreases n,
{
    if n == 0 {
        p
    } else {
        next_pid_after(pid_after(p, (n - 1) as nat))
    }
}

/// After [`Sched::init`], PIDs are handed out as 1, 2, 3, ...: the one handed out after `n`
/// others is `n + 1`, so none repeats and 0 never comes, until the count reaches `i32::MAX`.
pub proof fn law_pids_count_up(n: nat)
    requires
        n < i32::MAX,
    ensures
        pid_after(1, n) == n + 1,
    decreases n,
{
    if n > 0 {
        law_pids_count_up((n - 1) as nat);
    }
}

/// Over a run of calls on a [`Sched`], the active PID is the one the last
/// `set_active_pid(p)` set, and stays as it started where no call set it (0 after
/// [`Sched::new`]). In `calls`, `Some(p)` stands for `set_active_pid(p)` and `None` for any
/// other call (`init`, `alloc_pid`, `insert_process`, `remove_process`, `with_process`, ...),
/// which keeps the active PID.
pub proof fn law_active_pid_last_set(states: Seq<Sched>, calls: Seq<Option<i32>>)
    requires
        states.len() == calls.len() + 1,
        forall|i: int|
            #![trigger calls[i]]
            0 <= i < calls.len() ==> states[i + 1].active() == match calls[i] {
                Some(p) => p,
                None => states[i].active(),
            },
    ensures
        states.last().active() == value_after(states[0].active(), calls),
        (forall|i: int| 0 <= i < calls.len() ==> #[trigger] calls[i] is None) ==> states.last().active()
            == states[0].active(),
        forall|i: int|
            #![trigger calls[i]]
            0 <= i < calls.len() && calls[i] is Some && (forall|j: int|
                i < j < calls.len() ==> #[trigger] calls[j] is None) ==> states.last().active()
                == calls[i]->0,
{
    let values = Seq::new(states.len(), |i: int| states[i].active());
    assert(run_of(values, calls));
    lemma_value_after(values, calls);
    assert(values.last() == states.last().active());
}

/// Holds the scheduler state: the process table keyed by PID, the active PID and the next
/// PID to hand out.
pub struct Sched {
    procs: BTreeMap<i32, Process>,
    active_pid: i32,
    next_pid: i32,
}

impl Sched {
    /// The process table.
    pub closed spec fn table(&self) -> Map<i32, Process> {
        self.procs@
    }

    /// The PID the next call of [`Sched::alloc_pid`] hands out.
    pub closed spec fn next(&self) -> i32 {
        self.next_pid
    }

    /// The active PID.
    pub closed spec fn active(&self) -> i32 {
        self.active_pid
    }

    /// Constructor; an empty process table, and both PIDs zero.
    pub fn new() -> (r: Self)
        ensures
            r.table() == Map::<i32, Process>::empty(),
            r.active() == 0,
            r.next() == 0,
    {
        Sched { procs: BTreeMap::new(), active_pid: 0, next_pid: 0 }
    }

    /// Initialize the scheduler state: an empty process table, PIDs handed out from 1.
    pub fn init(&mut self)
        ensures
            final(self).table() == Map::<i32, Process>::empty(),
            final(self).next() == 1,
            final(self).active() == old(self).active(),
    {
        self.procs = BTreeMap::new();
        self.next_pid = 1;
    }

    /// Hand out the next free PID.
    pub fn alloc_pid(&mut self) -> (r: i32)
        ensures
            r == old(self).next(),
            final(self).next() == next_pid_after(old(self).next()),
            final(self).table() == old(self).table(),
            final(self).active() == old(self).active(),
    {
        let pid = self.next_pid;
        self.next_pid = if pid == i32::MAX {
            i32::MIN
        } else {
            pid + 1
        };
        pid
    }

    /// Getter for the active PID.
    pub fn active_pid(&self) -> (r: i32)
        ensures
            r == self.active(),
    {
        self.active_pid
    }

    /// Set the active PID.
    pub fn set_active_pid(&mut self, new_active_pid: i32)
        ensures
            final(self).active() == new_active_pid,
            final(self).table() == old(self).table(),
            final(self).next() == old(self).next(),
    {
        self.active_pid = new_active_pid;
    }

    /// Add a process to the process table, under its PID (replacing one with that PID).
    pub fn insert_process(&mut self, process: Process)
        ensures
            final(self).table() == old(self).table().insert(process.pid, process),
            final(self).active() == old(self).active(),
            final(self).next() == old(self).next(),
    {
        let pid = process.pid;
        self.procs.insert(pid, process);
    }

    /// Remove a process from the process table and return it, or `None` if it did not exist.
    pub fn remove_process(&mut self, pid: i32) -> (r: Option<Process>)
        ensures
            final(self).table() == old(self).table().remove(pid),
            old(self).table().contains_key(pid) ==> r == Some(old(self).table()[pid]),
            !old(self).table().contains_key(pid) ==> r is None,
            final(self).active() == old(self).active(),
            final(self).next() == old(self).next(),
    {
        self.procs.remove(&pid)
    }

    /// Run `f` on the process that belongs to `pid`; `None` where there is none.
    pub fn with_process<R, F: FnOnce(&mut Process) -> R>(&mut self, pid: i32, f: F) -> (r: Option<R>)
        requires
            old(self).table().contains_key(pid) ==> forall|p: &mut Process|
                *p == old(self).table()[pid] ==> #[trigger] f.requires((p,)),
        ensures
            r is None <==> !old(self).table().contains_key(pid),
            r is None ==> final(self).table() == old(self).table(),
            r is Some ==> exists|p: &mut Process| {
                &&& *p == old(self).table()[pid]
                &&& #[trigger] f.ensures((p,), r->0)
                &&& final(self).table() == old(self).table().insert(pid, *final(p))
            },
            final(self).active() == old(self).active(),
            final(self).next() == old(self).next(),
    {
        match self.procs.remove(&pid) {
            Some(mut p) => {
                let ghost p0 = p;
                let r = f(&mut p);
                assert(exists|q: &mut Process| *q == p0 && *final(q) == p && #[trigger] f.ensures((q,), r));
                let ghost q = choose|q: &mut Process| *q == p0 && *final(q) == p && #[trigger] f.ensures((q,), r);
                self.procs.insert(pid, p);
                proof {
                    assert(self.procs@ =~= old(self).table().insert(pid, *final(q)));
                    assert(f.ensures((q,), r));
                    assert(*q == old(self).table()[pid]);
                    assert(Some(r)->0 == r);
                }
                Some(r)
            },
            None => None,
        }
    }

    /// Run `f` on the active process; `None` where the process table has no entry for it.
    pub fn with_active_process<R, F: FnOnce(&mut Process) -> R>(&mut self, f: F) -> (r: Option<R>)
        requires
            old(self).table().contains_key(old(self).active()) ==> forall|p: &mut Process|
                *p == old(self).table()[old(self).active()] ==> #[trigger] f.requires((p,)),
        ensures
            r is None <==> !old(self).table().contains_key(old(self).active()),
            r is None ==> final(self).table() == old(self).table(),
            r is Some ==> exists|p: &mut Process| {
                &&& *p == old(self).table()[old(self).active()]
                &&& #[trigger] f.ensures((p,), r->0)
                &&& final(self).table() == old(self).table().insert(old(self).active(), *final(p))
            },
            final(self).active() == old(self).active(),
            final(self).next() == old(self).next(),
    {
        let pid = self.active_pid();
        self.with_process(pid, f)
    }
}

} // verus!

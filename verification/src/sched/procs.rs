//! The process table of the kernel and its active process.

use crate::sched::process::Process;
use std::collections::BTreeMap;
use vstd::prelude::*;

verus! {

/// Holds the process table, keyed and ordered by PID, once it is set up, and the PID of the
/// process the kernel is running.
pub struct Procs {
    procs: Option<BTreeMap<i32, Process>>,
    active_pid: i32,
}

impl Procs {
    /// The process table, once set up.
    pub closed spec fn table(&self) -> Option<Map<i32, Process>> {
        match self.procs {
            Some(m) => Some(m@),
            None => None,
        }
    }

    /// The active PID.
    pub closed spec fn active(&self) -> i32 {
        self.active_pid
    }

    /// Constructor; no process table yet and the active PID is zero.
    pub fn new() -> (r: Self)
        ensures
            r.table() is None,
            r.active() == 0,
    {
        Procs { procs: None, active_pid: 0 }
    }

    /// Set up an empty process table; this happens once.
    pub fn init_procs(&mut self)
        requires
            old(self).table() is None,
        ensures
            final(self).table() == Some(Map::<i32, Process>::empty()),
            final(self).active() == old(self).active(),
    {
        self.procs = Some(BTreeMap::new());
    }

    /// Set the active PID.
    pub fn set_active_pid(&mut self, new_active_pid: i32)
        ensures
            final(self).active() == new_active_pid,
            final(self).table() == old(self).table(),
    {
        self.active_pid = new_active_pid;
    }

    /// The process table; it must have been set up.
    pub fn procs(&mut self) -> (r: &mut BTreeMap<i32, Process>)
        requires
            old(self).table() is Some,
        ensures
            r@ == old(self).table()->0,
            final(self).table() == Some(final(r)@),
            final(self).active() == old(self).active(),
    {
        self.procs.as_mut().unwrap()
    }

    /// Getter for the active PID.
    pub fn active_pid(&self) -> (r: i32)
        ensures
            r == self.active(),
    {
        self.active_pid
    }
}

} // verus!

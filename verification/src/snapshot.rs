//! One complete observation of the process table.
//!
//! A snapshot is an ordered sequence of process records with no
//! duplicate PIDs; the scanner appends records one by one and a
//! record whose PID is already present is refused.

use vstd::prelude::*;

use crate::process::ProcessInformation;

verus! {

/// An ordered sequence of process records with unique PIDs, produced
/// atomically by one pass of the scanner.
#[derive(Debug)]
pub struct Snapshot {
    /// The records, in scan order.
    pub processes: Vec<ProcessInformation>,
}

impl Snapshot {
    /// No two records share a PID.
    pub open spec fn wf(self) -> bool {
        forall|i: int, j: int|
            0 <= i < j < self.processes@.len() ==> (#[trigger] self.processes@[i]).pid != (
            #[trigger] self.processes@[j]).pid
    }

    /// An empty snapshot, trivially well formed.
    pub fn new() -> (r: Snapshot)
        ensures
            r.wf(),
            r.processes@.len() == 0,
    {
        Snapshot { processes: Vec::new() }
    }

    /// Whether a record with this PID is already present.
    pub fn contains_pid(&self, pid: usize) -> (r: bool)
        ensures
            r == exists|i: int|
                0 <= i < self.processes@.len() && (#[trigger] self.processes@[i]).pid == pid,
    {
        let n = self.processes.len();
        let mut i: usize = 0;
        while i < n
            invariant
                n == self.processes@.len(),
                i <= n,
                forall|k: int| 0 <= k < i ==> (#[trigger] self.processes@[k]).pid != pid,
            decreases n - i,
        {
            if self.processes[i].pid == pid {
                proof {
                    assert((self.processes@[i as int]).pid == pid);
                }
                return true;
            }
            i += 1;
        }
        false
    }

    /// Append one record, refusing a duplicate PID, so that a
    /// well-formed snapshot stays well formed.  Returns whether the
    /// record was taken.
    pub fn push(&mut self, process: ProcessInformation) -> (r: bool)
        requires
            old(self).wf(),
        ensures
            final(self).wf(),
            r == !(exists|i: int|
                0 <= i < old(self).processes@.len() && (#[trigger] old(self).processes@[i]).pid
                    == process.pid),
            r ==> final(self).processes@ == old(self).processes@.push(process),
            !r ==> final(self).processes@ == old(self).processes@,
    {
        if self.contains_pid(process.pid) {
            return false;
        }
        self.processes.push(process);
        true
    }

    /// Number of records in the snapshot.
    pub fn len(&self) -> (r: usize)
        ensures
            r == self.processes@.len(),
    {
        self.processes.len()
    }

    /// The record at one position.
    pub fn get(&self, i: usize) -> (r: &ProcessInformation)
        requires
            i < self.processes@.len(),
        ensures
            *r == self.processes@[i as int],
    {
        &self.processes[i]
    }
}

} // verus!

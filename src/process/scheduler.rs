//! The scheduler: the processes that may run and the one that runs.
//!
//! Selection always takes the first process that has not started yet; there
//! is no round robin and no preemption.
use vstd::prelude::*;

use super::{PId, Process, Status, UserEntry};

verus! {

/// The index of the first process in `processes` that is ready, if any.
pub open spec fn first_ready(processes: Seq<Process>) -> Option<int> {
    if exists|i: int| is_first_ready(processes, i) {
        Some(choose|i: int| is_first_ready(processes, i))
    } else {
        None
    }
}

pub open spec fn is_first_ready(processes: Seq<Process>, i: int) -> bool {
    &&& 0 <= i < processes.len()
    &&& processes[i].status == Status::Ready
    &&& forall|j: int| 0 <= j < i ==> (#[trigger] processes[j]).status != Status::Ready
}

pub struct Scheduler {
    processes: Vec<Process>,
    current: Option<usize>,
}

impl Scheduler {
    pub closed spec fn spec_processes(&self) -> Seq<Process> {
        self.processes@
    }

    pub closed spec fn spec_current(&self) -> Option<usize> {
        self.current
    }

    /// A scheduler with no process.
    pub fn new() -> (r: Scheduler)
        ensures
            r.spec_processes() == Seq::<Process>::empty(),
            r.spec_current() is None,
    {
        Scheduler { processes: Vec::new(), current: None }
    }

    /// Adds a process.
    pub fn spawn(&mut self, proc: Process)
        ensures
            final(self).spec_processes() == old(self).spec_processes().push(proc),
            final(self).spec_current() == old(self).spec_current(),
    {
        self.processes.push(proc);
    }

    /// The process that runs, if any.
    pub fn current(&self) -> (r: Option<PId>)
        ensures
            r == match self.spec_current() {
                Some(i) => Some(PId(i)),
                None => None,
            },
    {
        match self.current {
            Some(i) => Some(PId(i)),
            None => None,
        }
    }

    /// Selects the first ready process, marks it started and current, and
    /// returns the transition that enters it. With no ready process nothing
    /// changes and no transition is asked for.
    pub fn next(&mut self) -> (r: Option<UserEntry>)
        ensures
            match first_ready(old(self).spec_processes()) {
                Some(i) => {
                    let p = old(self).spec_processes()[i];
                    &&& r == Some(p.spec_entry())
                    &&& final(self).spec_current() == Some(i as usize)
                    &&& final(self).spec_processes() == old(self).spec_processes().update(
                        i,
                        Process { status: Status::Started, ..p },
                    )
                },
                None => {
                    &&& r is None
                    &&& final(self).spec_processes() == old(self).spec_processes()
                    &&& final(self).spec_current() == old(self).spec_current()
                },
            },
    {
        let ghost procs = self.processes@;
        let mut i: usize = 0;
        while i < self.processes.len()
            invariant
                procs == self.processes@,
                procs == old(self).processes@,
                self.current == old(self).current,
                i <= procs.len(),
                forall|j: int| 0 <= j < i ==> (#[trigger] procs[j]).status != Status::Ready,
            decreases procs.len() - i,
        {
            if self.processes[i].status == Status::Ready {
                proof {
                    assert(is_first_ready(procs, i as int));
                    let k = choose|k: int| is_first_ready(procs, k);
                    assert(k == i as int) by {
                        if k < i {
                            assert(procs[k].status != Status::Ready);
                        }
                        if k > i {
                            assert(procs[i as int].status != Status::Ready);
                        }
                    }
                }
                let p = self.processes[i];
                let entry = p.entry();
                self.processes.set(i, Process { status: Status::Started, ..p });
                self.current = Some(i);
                return Some(entry);
            }
            i = i + 1;
        }
        proof {
            assert forall|k: int| !is_first_ready(procs, k) by {
                if 0 <= k < procs.len() {
                    assert(procs[k].status != Status::Ready);
                }
            }
        }
        None
    }
}

/// With a single spawned process, the scheduler selects it and reports it
/// as current; with none, it asks for no transition and changes nothing.
pub proof fn lemma_next_selects_only_process(proc: Process)
    requires
        proc.status == Status::Ready,
    ensures
        first_ready(seq![proc]) == Some(0int),
        first_ready(Seq::<Process>::empty()) is None,
{
    assert(is_first_ready(seq![proc], 0));
    let k = choose|k: int| is_first_ready(seq![proc], k);
    assert(k == 0);
}

} // verus!

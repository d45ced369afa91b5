//! fork / exec: copy-on-write fork (default) and clean fork, where the child
//! inherits no memory and takes its context from a message.

use vstd::prelude::*;
use crate::kernel::process::{
    find_index, free_index, is_fresh, is_first_match, is_first_free, lemma_find_index, lemma_first_match_exists, matches_pid, Process, ProcState, is_fresh_free, ProcessTable, MAX_PROCS,
};
use crate::kernel::pagetable::PageTableManager;

verus! {

/// Result of a fork.
pub enum ForkResult {
    /// The parent gets the child's pid.
    Parent(u16),
    /// The child.
    Child,
}

/// The slot id that a forked child inherits: that of the first live process
/// with the parent's pid, or 0 where there is none.
pub open spec fn inherited_slot(t: Seq<Process>, parent_pid: u16) -> u8 {
    match find_index(t, parent_pid) {
        Some(k) => t[k].slot_id,
        None => 0,
    }
}

/// `p` made ready in `slot`.
pub open spec fn ready_in(p: Process, slot: u8) -> Process {
    Process { slot_id: slot, state: ProcState::Ready, ..p }
}

/// `t2` is what a fork makes of `t0`: the first free slot gets a fresh process
/// with pid `pid`, then the first live process with that pid is made ready in
/// the slot that `slot_of` gives for the table at that point.
pub open spec fn forked(t0: Seq<Process>, t2: Seq<Process>, pid: u16, slot_of: spec_fn(Seq<Process>) -> u8) -> bool {
    free_index(t0) matches Some(i) && exists|f: Process| #[trigger] is_fresh(f, pid) && {
        let t1 = t0.update(i, f);
        find_index(t1, pid) matches Some(m) && t2 == t1.update(m, ready_in(t1[m], slot_of(t1)))
    }
}

/// A copy-on-write fork whose child pid `pid` is not yet live: the child
/// sits in the first free slot, a fresh process with pid `pid`, ready, in the
/// slot of its parent (the first live process with `parent_pid`); every
/// other slot is unchanged.
pub proof fn law_fork_cow_child(t0: Seq<Process>, t2: Seq<Process>, pid: u16, parent_pid: u16)
    requires
        forked(t0, t2, pid, |t: Seq<Process>| inherited_slot(t, parent_pid)),
        find_index(t0, parent_pid) is Some,
        find_index(t0, pid) is None,
    ensures
        free_index(t0) matches Some(i) && {
            &&& t2.len() == t0.len()
            &&& t2[i].slot_id == t0[find_index(t0, parent_pid)->0].slot_id
            &&& t2[i].pid == pid
            &&& t2[i].state == ProcState::Ready
            &&& t2[i].cpu_ticks == 0 && t2[i].io_bytes == 0 && t2[i].page_faults == 0
            &&& t2[i].syscall_count == 0 && t2[i].audit_strikes == 0
            &&& forall|j: int| 0 <= j < t0.len() && j != i ==> #[trigger] t2[j] == t0[j]
        },
{
    let i = free_index(t0)->0;
    assert(is_first_free(t0, i));
    let f = choose|f: Process| #[trigger] is_fresh(f, pid) && {
        let t1 = t0.update(i, f);
        find_index(t1, pid) matches Some(m) && t2 == t1.update(m, ready_in(t1[m], inherited_slot(t1, parent_pid)))
    };
    let t1 = t0.update(i, f);
    let m = find_index(t1, pid)->0;
    assert(is_first_match(t1, pid, m));
    if m < i {
        assert(t1[m] == t0[m]);
        crate::kernel::process::lemma_first_match_exists(t0, pid, m);
    }
    assert(matches_pid(t1[i], pid));
    assert(m == i);
    let k = find_index(t0, parent_pid)->0;
    assert(is_first_match(t0, parent_pid, k));
    assert(parent_pid != pid) by {
        if parent_pid == pid {
            assert(find_index(t0, pid) is Some);
        }
    }
    assert(t1[k] == t0[k]);
    assert forall|j: int| 0 <= j < k implies !matches_pid(#[trigger] t1[j], parent_pid) by {
        if j != i {
            assert(t1[j] == t0[j]);
        }
    }
    lemma_find_index(t1, parent_pid, k);
}

/// Process spawner: the process table and the page tables.
pub struct ProcessSpawner {
    proc_table: ProcessTable,
    page_mgr: PageTableManager,
}

impl ProcessSpawner {
    /// Both tables are well formed.
    pub closed spec fn wf(self) -> bool {
        self.proc_table.wf() && self.page_mgr.wf()
    }

    /// The process table.
    pub closed spec fn table(self) -> ProcessTable {
        self.proc_table
    }

    /// The page tables.
    pub closed spec fn pages(self) -> PageTableManager {
        self.page_mgr
    }

    /// A spawner with a new process table and empty page tables.
    pub fn new() -> (r: Self)
        ensures
            r.wf(),
            r.table().next_pid() == 0,
            forall|i: int| 0 <= i < MAX_PROCS ==> is_fresh_free(#[trigger] r.table().slots()[i], i as u16),
            r.pages().count() == 0,
            forall|v: u64| #[trigger] r.pages().spec_translate(v) == None::<u64>,
    {
        ProcessSpawner { proc_table: ProcessTable::new(), page_mgr: PageTableManager::new() }
    }

    /// Copy-on-write fork of the live process `parent_pid`: a new process with
    /// the next pid, made ready in the parent's slot. Fails with
    /// "parent process not found" where no live process has the pid, and
    /// with "process table full" where no slot is free; nothing changes then.
    pub fn fork_cow(&mut self, parent_pid: u16) -> (r: Result<ForkResult, &'static str>)
        requires
            old(self).wf(),
        ensures
            final(self).wf(),
            final(self).pages() == old(self).pages(),
            find_index(old(self).table().slots(), parent_pid) is None ==> r == Err::<ForkResult, &'static str>("parent process not found")
                && *final(self) == *old(self),
            find_index(old(self).table().slots(), parent_pid) is Some && free_index(old(self).table().slots()) is None
                ==> r == Err::<ForkResult, &'static str>("process table full") && *final(self) == *old(self),
            find_index(old(self).table().slots(), parent_pid) is Some && free_index(old(self).table().slots()) is Some ==> {
                &&& r == Ok::<ForkResult, &'static str>(ForkResult::Parent(old(self).table().next_pid()))
                &&& final(self).table().next_pid() == (old(self).table().next_pid() + 1) % 0x1_0000
                &&& forked(
                    old(self).table().slots(),
                    final(self).table().slots(),
                    old(self).table().next_pid(),
                    |t: Seq<Process>| inherited_slot(t, parent_pid),
                )
                &&& find_index(old(self).table().slots(), old(self).table().next_pid()) is None ==> {
                    &&& final(self).table().slots()[free_index(old(self).table().slots())->0].slot_id
                        == old(self).table().slots()[find_index(old(self).table().slots(), parent_pid)->0].slot_id
                    &&& final(self).table().slots()[free_index(old(self).table().slots())->0].pid == old(self).table().next_pid()
                    &&& final(self).table().slots()[free_index(old(self).table().slots())->0].state == ProcState::Ready
                }
            },
    {
        if self.proc_table.find(parent_pid).is_none() {
            return Err("parent process not found");
        }
        let ghost t0 = self.proc_table.slots();
        let child_pid = match self.proc_table.allocate() {
            Some(child) => child.pid,
            None => {
                return Err("process table full");
            },
        };
        let ghost t1 = self.proc_table.slots();
        let parent_slot = match self.proc_table.find(parent_pid) {
            Some(p) => p.slot_id,
            None => 0,
        };
        if let Some(child) = self.proc_table.find_mut(child_pid) {
            child.slot_id = parent_slot;
            child.state = ProcState::Ready;
        }
        proof {
            let i = free_index(t0)->0;
            let f = t1[i];
            assert(is_fresh(f, child_pid));
            assert(t1 == t0.update(i, f));
            lemma_first_match_exists(t1, child_pid, i);
        }
        proof {
            let t2 = self.proc_table.slots();
            assert(forked(t0, t2, child_pid, |t: Seq<Process>| inherited_slot(t, parent_pid)));
            if find_index(t0, child_pid) is None {
                law_fork_cow_child(t0, t2, child_pid, parent_pid);
            }
        }
        Ok(ForkResult::Parent(child_pid))
    }

    /// Clean fork: a new process with the next pid, made ready in slot 0; it
    /// inherits no memory and would take its context from `init_msg`. Fails
    /// with "process table full" where no slot is free, changing nothing.
    pub fn fork_clean(&mut self, parent_pid: u16, init_msg: &[u8]) -> (r: Result<ForkResult, &'static str>)
        requires
            old(self).wf(),
        ensures
            final(self).wf(),
            final(self).pages() == old(self).pages(),
            free_index(old(self).table().slots()) is None ==> r == Err::<ForkResult, &'static str>("process table full")
                && *final(self) == *old(self),
            free_index(old(self).table().slots()) is Some ==> {
                &&& r == Ok::<ForkResult, &'static str>(ForkResult::Parent(old(self).table().next_pid()))
                &&& final(self).table().next_pid() == (old(self).table().next_pid() + 1) % 0x1_0000
                &&& forked(
                    old(self).table().slots(),
                    final(self).table().slots(),
                    old(self).table().next_pid(),
                    |t: Seq<Process>| 0u8,
                )
            },
    {
        let _ = parent_pid;
        let _ = init_msg;
        let ghost t0 = self.proc_table.slots();
        let child_pid = match self.proc_table.allocate() {
            Some(child) => child.pid,
            None => {
                return Err("process table full");
            },
        };
        let ghost t1 = self.proc_table.slots();
        if let Some(child) = self.proc_table.find_mut(child_pid) {
            child.state = ProcState::Ready;
            child.slot_id = 0;
        }
        proof {
            let i = free_index(t0)->0;
            let f = t1[i];
            assert(is_fresh(f, child_pid));
            assert(t1 == t0.update(i, f));
            lemma_first_match_exists(t1, child_pid, i);
        }
        Ok(ForkResult::Parent(child_pid))
    }

    /// Replaces a process image. Nothing is loaded yet: always `Ok`, and
    /// nothing changes.
    pub fn exec(&mut self, pid: u16, program: &[u8]) -> (r: Result<(), &'static str>)
        ensures
            r == Ok::<(), &'static str>(()),
            *final(self) == *old(self),
    {
        let _ = pid;
        let _ = program;
        Ok(())
    }

    /// Reclaims a process: frees the first live process with the pid.
    pub fn reap(&mut self, pid: u16)
        requires
            old(self).wf(),
        ensures
            final(self).wf(),
            final(self).pages() == old(self).pages(),
            final(self).table().next_pid() == old(self).table().next_pid(),
            find_index(old(self).table().slots(), pid) is None ==> final(self).table().slots() == old(self).table().slots(),
            find_index(old(self).table().slots(), pid) matches Some(i) ==> final(self).table().slots()
                == old(self).table().slots().update(i, Process { state: ProcState::Free, ..old(self).table().slots()[i] }),
    {
        self.proc_table.free(pid);
    }

    /// The process table.
    pub fn proc_table(&self) -> (r: &ProcessTable)
        ensures
            *r == self.table(),
    {
        &self.proc_table
    }

    /// The process table, for change.
    pub fn proc_table_mut(&mut self) -> (r: &mut ProcessTable)
        ensures
            *r == old(self).table(),
            final(self).table() == *final(r),
            final(self).pages() == old(self).pages(),
    {
        &mut self.proc_table
    }

    /// The page tables.
    pub fn page_mgr(&self) -> (r: &PageTableManager)
        ensures
            *r == self.pages(),
    {
        &self.page_mgr
    }
}

} // verus!

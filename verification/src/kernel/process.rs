//! Process control blocks and the fixed-size process table.

use vstd::prelude::*;
use crate::kernel::task_gate::TaskClass;
use crate::kernel::elimination::{EliminationAction, frozen_all, freeze_list, judged, strikes_fit};

verus! {

/// Maximum number of processes.
pub const MAX_PROCS: usize = 256;

/// Process state.
#[derive(Debug, Clone, Copy, PartialEq, Eq, Structural)]
pub enum ProcState {
    Running,
    Ready,
    Blocked,
    Frozen,
    Zombie,
    Free,
}

/// Process control block. (The floating-point quality score that the
/// scheduler keeps per process lives beside the table, with the scheduler.)
#[derive(Clone, Copy)]
pub struct Process {
    pub pid: u16,
    pub state: ProcState,
    /// Owning slot.
    pub slot_id: u8,
    /// Task class.
    pub task_class: TaskClass,
    /// Consecutive failed audits.
    pub audit_strikes: u8,
    pub cpu_ticks: u64,
    pub io_bytes: u64,
    pub page_faults: u64,
    pub syscall_count: u64,
    /// The last 8 system-call numbers, as a ring.
    pub recent_syscalls: [u64; 8],
    /// Ring position (counts calls, wrapping at 256).
    pub syscall_idx: u8,
}

/// `p` is a fresh process with pid `pid`: ready, in slot 0, class `Mixed`,
/// every counter and the whole system-call ring zero.
pub open spec fn is_fresh(p: Process, pid: u16) -> bool {
    &&& p.pid == pid
    &&& p.state == ProcState::Ready
    &&& p.slot_id == 0
    &&& p.task_class == TaskClass::Mixed
    &&& p.audit_strikes == 0
    &&& p.cpu_ticks == 0
    &&& p.io_bytes == 0
    &&& p.page_faults == 0
    &&& p.syscall_count == 0
    &&& p.recent_syscalls@ == Seq::new(8, |i: int| 0u64)
    &&& p.syscall_idx == 0
}

impl Process {
    /// A fresh process with the given pid.
    pub fn new(pid: u16) -> (r: Self)
        ensures
            is_fresh(r, pid),
            r.pid == pid,
            r.state == ProcState::Ready,
            r.cpu_ticks == 0 && r.io_bytes == 0 && r.page_faults == 0,
            r.syscall_count == 0 && r.audit_strikes == 0 && r.syscall_idx == 0,
    {
        let r = Process {
            pid,
            state: ProcState::Ready,
            slot_id: 0,
            task_class: TaskClass::Mixed,
            audit_strikes: 0,
            cpu_ticks: 0,
            io_bytes: 0,
            page_faults: 0,
            syscall_count: 0,
            recent_syscalls: [0u64; 8],
            syscall_idx: 0,
        };
        assert(r.recent_syscalls@ =~= Seq::new(8, |i: int| 0u64));
        r
    }

    /// Records a system call: it goes into the ring at the current position
    /// (mod 8), and the position and the call count go up by one, wrapping.
    pub fn record_syscall(&mut self, sysno: u64)
        ensures
            records_syscall(*old(self), *final(self), sysno),
    {
        let pos = (self.syscall_idx % 8) as usize;
        self.recent_syscalls[pos] = sysno;
        self.syscall_idx = self.syscall_idx.wrapping_add(1);
        self.syscall_count = self.syscall_count.wrapping_add(1);
    }

    /// The recent system-call history: the first `min(syscall_count, 8)`
    /// ring slots.
    pub fn recent_syscalls_slice(&self) -> (r: &[u64])
        ensures
            r@ == recent_history(*self),
    {
        let n: usize = if self.syscall_count < 8 { self.syscall_count as usize } else { 8 };
        let all: &[u64] = self.recent_syscalls.as_slice();
        &all[0..n]
    }
}

/// `after` is `before` with `sysno` recorded: the call goes into the ring at
/// position `syscall_idx % 8`, the position and the call count go up by one
/// (wrapping at 256 and at 2^64), and every other field stays.
pub open spec fn records_syscall(before: Process, after: Process, sysno: u64) -> bool {
    &&& after.recent_syscalls@ == before.recent_syscalls@.update((before.syscall_idx % 8) as int, sysno)
    &&& after.syscall_idx == (before.syscall_idx + 1) % 256
    &&& after.syscall_count == (before.syscall_count + 1) % 0x1_0000_0000_0000_0000
    &&& after.pid == before.pid
    &&& after.state == before.state
    &&& after.slot_id == before.slot_id
    &&& after.task_class == before.task_class
    &&& after.audit_strikes == before.audit_strikes
    &&& after.cpu_ticks == before.cpu_ticks
    &&& after.io_bytes == before.io_bytes
    &&& after.page_faults == before.page_faults
}

/// What `recent_syscalls_slice` hands out: the first `min(syscall_count, 8)`
/// ring slots.
pub open spec fn recent_history(p: Process) -> Seq<u64> {
    p.recent_syscalls@.subrange(0, if p.syscall_count < 8 { p.syscall_count as int } else { 8 })
}

/// Position in `calls` of the last call that went into ring slot `j`
/// (valid where `j < calls.len()`).
pub open spec fn last_in_slot(n: int, j: int) -> int {
    n - 1 - (n - 1 - j) % 8
}

/// The ring slot `j` after the calls `calls` from a fresh process: the last
/// call whose position is `j` mod 8, or 0 where none is.
pub open spec fn ring_slot(calls: Seq<u64>, j: int) -> u64 {
    if j < calls.len() { calls[last_in_slot(calls.len() as int, j)] } else { 0 }
}

/// `p` is a fresh process after recording `calls`, in order: the count is
/// their number, the position is that number mod 256, and each ring slot
/// holds the last call that went into it.
pub open spec fn holds_history(p: Process, calls: Seq<u64>) -> bool {
    &&& p.syscall_count == calls.len()
    &&& p.syscall_idx == calls.len() % 256
    &&& forall|j: int| 0 <= j < 8 ==> #[trigger] p.recent_syscalls@[j] == ring_slot(calls, j)
}

/// The last `min(n, 8)` of `n` calls as the ring holds them: all of them in
/// order while `n <= 8`; past that the last 8, rotated so that the oldest
/// of them stands at position `n % 8`.
pub open spec fn last_calls(calls: Seq<u64>) -> Seq<u64> {
    let n = calls.len() as int;
    if n <= 8 {
        calls
    } else {
        let tail = calls.subrange(n - 8, n);
        let s = (8 - n % 8) % 8;
        tail.subrange(s, 8) + tail.subrange(0, s)
    }
}

/// A fresh process has done nothing yet: it is ready, with no CPU ticks,
/// I/O, page faults, system calls or strikes.
pub proof fn law_fresh_process_counters_zero(p: Process, pid: u16)
    requires
        is_fresh(p, pid),
    ensures
        p.pid == pid,
        p.state == ProcState::Ready,
        p.cpu_ticks == 0,
        p.io_bytes == 0,
        p.page_faults == 0,
        p.syscall_count == 0,
        p.audit_strikes == 0,
{
}

/// A slot of a new table holds a process that has done nothing yet: free,
/// with no CPU ticks, I/O, page faults, system calls or strikes.
pub proof fn law_fresh_free_counters_zero(p: Process, pid: u16)
    requires
        is_fresh_free(p, pid),
    ensures
        p.pid == pid,
        p.state == ProcState::Free,
        p.cpu_ticks == 0,
        p.io_bytes == 0,
        p.page_faults == 0,
        p.syscall_count == 0,
        p.audit_strikes == 0,
{
}

/// A fresh process has recorded no call.
pub proof fn law_fresh_history(p: Process, pid: u16)
    requires
        is_fresh(p, pid),
    ensures
        holds_history(p, Seq::<u64>::empty()),
{
}

/// Recording a call extends the history by that call (while the count
/// does not wrap).
pub proof fn law_record_extends_history(before: Process, after: Process, calls: Seq<u64>, sysno: u64)
    requires
        holds_history(before, calls),
        records_syscall(before, after, sysno),
        calls.len() + 1 < 0x1_0000_0000_0000_0000,
    ensures
        holds_history(after, calls.push(sysno)),
{
    let n = calls.len() as int;
    let c2 = calls.push(sysno);
    assert((before.syscall_idx % 8) as int == n % 8);
    assert forall|j: int| 0 <= j < 8 implies #[trigger] after.recent_syscalls@[j] == ring_slot(c2, j) by {
        if j == n % 8 {
            assert(last_in_slot(n + 1, j) == n);
        } else if j < n {
            assert(last_in_slot(n + 1, j) == last_in_slot(n, j));
        } else {
            assert(n < 8);
        }
    }
}

/// The recent history is the last `min(n, 8)` of the `n` recorded calls:
/// all of them in call order while `n <= 8`, else the last 8 (rotated as
/// the ring holds them).
pub proof fn law_recent_history_is_last_calls(p: Process, calls: Seq<u64>)
    requires
        holds_history(p, calls),
    ensures
        recent_history(p) == last_calls(calls),
        recent_history(p).len() == if calls.len() < 8 { calls.len() } else { 8 },
{
    let n = calls.len() as int;
    let r = recent_history(p);
    let l = last_calls(calls);
    if n <= 8 {
        assert forall|j: int| 0 <= j < r.len() implies r[j] == l[j] by {
            assert(p.recent_syscalls@[j] == ring_slot(calls, j));
            assert(last_in_slot(n, j) == j);
        }
        assert(r =~= l);
    } else {
        let s = (8 - n % 8) % 8;
        assert forall|j: int| 0 <= j < 8 implies r[j] == l[j] by {
            assert(p.recent_syscalls@[j] == ring_slot(calls, j));
            if j < 8 - s {
                assert(l[j] == calls[n - 8 + s + j]);
                assert(last_in_slot(n, j) == n - 8 + s + j);
            } else {
                assert(l[j] == calls[n - 8 + j - (8 - s)]);
                assert(last_in_slot(n, j) == n - 8 + j - (8 - s));
            }
        }
        assert(r =~= l);
    }
}

/// `p` is a fresh process with pid `pid`, marked free: every field but the
/// state is as `Process::new(pid)` sets it.
pub open spec fn is_fresh_free(p: Process, pid: u16) -> bool {
    &&& p.state == ProcState::Free
    &&& is_fresh(Process { state: ProcState::Ready, ..p }, pid)
}

/// The process is live: its slot is not free.
pub open spec fn is_active(p: Process) -> bool {
    p.state != ProcState::Free
}

/// The process is live and carries the pid.
pub open spec fn matches_pid(p: Process, pid: u16) -> bool {
    is_active(p) && p.pid == pid
}

/// `i` is the first slot holding a live process with the pid.
pub open spec fn is_first_match(s: Seq<Process>, pid: u16, i: int) -> bool {
    &&& 0 <= i < s.len()
    &&& matches_pid(s[i], pid)
    &&& forall|j: int| 0 <= j < i ==> !matches_pid(#[trigger] s[j], pid)
}

/// The first slot holding a live process with the pid, if any.
pub open spec fn find_index(s: Seq<Process>, pid: u16) -> Option<int> {
    if exists|i: int| is_first_match(s, pid, i) {
        Some(choose|i: int| is_first_match(s, pid, i))
    } else {
        None
    }
}

/// `i` is the first free slot.
pub open spec fn is_first_free(s: Seq<Process>, i: int) -> bool {
    &&& 0 <= i < s.len()
    &&& !is_active(s[i])
    &&& forall|j: int| 0 <= j < i ==> is_active(#[trigger] s[j])
}

/// The first free slot, if any.
pub open spec fn free_index(s: Seq<Process>) -> Option<int> {
    if exists|i: int| is_first_free(s, i) {
        Some(choose|i: int| is_first_free(s, i))
    } else {
        None
    }
}

/// The live processes, in slot order.
pub open spec fn active_seq(s: Seq<Process>) -> Seq<Process>
    decreases s.len(),
{
    if s.len() == 0 {
        Seq::empty()
    } else if is_active(s.last()) {
        active_seq(s.drop_last()).push(s.last())
    } else {
        active_seq(s.drop_last())
    }
}

/// The first live process with the pid is the one `find_index` gives.
pub proof fn lemma_find_index(s: Seq<Process>, pid: u16, i: int)
    requires
        is_first_match(s, pid, i),
    ensures
        find_index(s, pid) == Some(i),
{
    let k = choose|k: int| is_first_match(s, pid, k);
    assert(is_first_match(s, pid, k));
    if k < i {
        assert(!matches_pid(s[k], pid));
    } else if i < k {
        assert(!matches_pid(s[i], pid));
    }
}

proof fn lemma_find_none(s: Seq<Process>, pid: u16)
    requires
        forall|j: int| 0 <= j < s.len() ==> !matches_pid(#[trigger] s[j], pid),
    ensures
        find_index(s, pid) == None::<int>,
{
}

proof fn lemma_free_index(s: Seq<Process>, i: int)
    requires
        is_first_free(s, i),
    ensures
        free_index(s) == Some(i),
{
    let k = choose|k: int| is_first_free(s, k);
    assert(is_first_free(s, k));
    if k < i {
        assert(is_active(s[k]));
    } else if i < k {
        assert(is_active(s[i]));
    }
}

/// The number of processes in state `st`.
pub open spec fn count_in(s: Seq<Process>, st: ProcState) -> nat
    decreases s.len(),
{
    if s.len() == 0 {
        0
    } else {
        count_in(s.drop_last(), st) + if s.last().state == st { 1nat } else { 0nat }
    }
}

/// The fixed-size process table.
pub struct ProcessTable {
    /// The `MAX_PROCS` slots.
    pub procs: [Process; MAX_PROCS],
    /// The pid the next allocation hands out.
    next_pid: u16,
}

impl ProcessTable {
    /// The table has `MAX_PROCS` slots.
    pub closed spec fn wf(self) -> bool {
        self.procs@.len() == MAX_PROCS
    }

    /// A well-formed table has exactly `MAX_PROCS` slots.
    pub proof fn lemma_wf_slot_count(self)
        ensures
            self.wf() <==> self.slots().len() == MAX_PROCS,
    {
    }

    /// The slots.
    pub closed spec fn slots(self) -> Seq<Process> {
        self.procs@
    }

    /// The pid the next allocation hands out.
    pub closed spec fn next_pid(self) -> u16 {
        self.next_pid
    }

    /// A table of `MAX_PROCS` free slots; slot `i` holds a fresh process with
    /// pid `i` marked free. The next pid is 0.
    pub fn new() -> (r: Self)
        ensures
            r.wf(),
            r.next_pid() == 0,
            forall|i: int| 0 <= i < MAX_PROCS ==> is_fresh_free(#[trigger] r.slots()[i], i as u16),
            forall|i: int| 0 <= i < MAX_PROCS ==> {
                &&& (#[trigger] r.slots()[i]).pid == i && r.slots()[i].state == ProcState::Free
                &&& r.slots()[i].cpu_ticks == 0 && r.slots()[i].io_bytes == 0 && r.slots()[i].page_faults == 0
                &&& r.slots()[i].syscall_count == 0 && r.slots()[i].audit_strikes == 0
            },
    {
        let mut procs = [Process::new(0); MAX_PROCS];
        let mut i: usize = 0;
        while i < MAX_PROCS
            invariant
                i <= MAX_PROCS,
                procs@.len() == MAX_PROCS,
                forall|j: int| 0 <= j < i ==> is_fresh_free(#[trigger] procs@[j], j as u16),
            decreases MAX_PROCS - i,
        {
            let mut p = Process::new(i as u16);
            p.state = ProcState::Free;
            procs[i] = p;
            i = i + 1;
        }
        ProcessTable { procs, next_pid: 0 }
    }

    /// Allocates the first free slot: it gets a fresh process with the next
    /// pid, the next pid goes up by one (wrapping), and the slot is handed out;
    /// `None` where no slot is free, with nothing changed.
    pub fn allocate(&mut self) -> (r: Option<&mut Process>)
        requires
            old(self).wf(),
        ensures
            final(self).wf(),
            free_index(old(self).slots()) is None ==> r is None && *final(self) == *old(self),
            free_index(old(self).slots()) matches Some(i) ==> {
                &&& r is Some
                &&& is_fresh(*r.unwrap(), old(self).next_pid())
                &&& r.unwrap().pid == old(self).next_pid() && r.unwrap().state == ProcState::Ready
                &&& r.unwrap().cpu_ticks == 0 && r.unwrap().io_bytes == 0 && r.unwrap().page_faults == 0
                &&& r.unwrap().syscall_count == 0 && r.unwrap().audit_strikes == 0
                &&& final(self).slots() == old(self).slots().update(i, *final(r.unwrap()))
                &&& final(self).next_pid() == (old(self).next_pid() + 1) % 0x1_0000
            },
    {
        let mut i: usize = 0;
        while i < MAX_PROCS
            invariant
                i <= MAX_PROCS,
                self.procs@.len() == MAX_PROCS,
                *self == *old(self),
                forall|j: int| 0 <= j < i ==> is_active(#[trigger] self.procs@[j]),
            decreases MAX_PROCS - i,
        {
            if self.procs[i].state == ProcState::Free {
                proof { lemma_free_index(self.procs@, i as int); }
                let pid = self.next_pid;
                self.next_pid = self.next_pid.wrapping_add(1);
                self.procs[i] = Process::new(pid);
                self.procs[i].pid = pid;
                self.procs[i].state = ProcState::Ready;
                return Some(&mut self.procs[i]);
            }
            i = i + 1;
        }
        proof {
            assert forall|k: int| !is_first_free(old(self).procs@, k) by {
                if 0 <= k < MAX_PROCS {
                    assert(is_active(self.procs@[k]));
                }
            }
        }
        None
    }

    /// The first free slot, if any.
    pub fn first_free_slot(&self) -> (r: Option<usize>)
        requires
            self.wf(),
        ensures
            free_index(self.slots()) is None ==> r is None,
            free_index(self.slots()) matches Some(i) ==> r == Some(i as usize),
    {
        let mut i: usize = 0;
        while i < MAX_PROCS
            invariant
                i <= MAX_PROCS,
                self.procs@.len() == MAX_PROCS,
                forall|j: int| 0 <= j < i ==> is_active(#[trigger] self.procs@[j]),
            decreases MAX_PROCS - i,
        {
            if self.procs[i].state == ProcState::Free {
                proof { lemma_free_index(self.procs@, i as int); }
                return Some(i);
            }
            i = i + 1;
        }
        proof {
            assert forall|k: int| !is_first_free(self.procs@, k) by {
                if 0 <= k < MAX_PROCS {
                    assert(is_active(self.procs@[k]));
                }
            }
        }
        None
    }

    /// The live process with the pid in the first slot that holds one.
    pub fn find(&self, pid: u16) -> (r: Option<&Process>)
        requires
            self.wf(),
        ensures
            find_index(self.slots(), pid) is None ==> r is None,
            find_index(self.slots(), pid) matches Some(i) ==> r is Some && *r.unwrap() == self.slots()[i],
    {
        let mut i: usize = 0;
        while i < MAX_PROCS
            invariant
                i <= MAX_PROCS,
                self.procs@.len() == MAX_PROCS,
                forall|j: int| 0 <= j < i ==> !matches_pid(#[trigger] self.procs@[j], pid),
            decreases MAX_PROCS - i,
        {
            if self.procs[i].state != ProcState::Free && self.procs[i].pid == pid {
                proof { lemma_find_index(self.procs@, pid, i as int); }
                return Some(&self.procs[i]);
            }
            i = i + 1;
        }
        proof { lemma_find_none(self.procs@, pid); }
        None
    }

    /// As `find`, handing out the process for change.
    pub fn find_mut(&mut self, pid: u16) -> (r: Option<&mut Process>)
        requires
            old(self).wf(),
        ensures
            final(self).wf(),
            final(self).next_pid() == old(self).next_pid(),
            find_index(old(self).slots(), pid) is None ==> r is None && *final(self) == *old(self),
            find_index(old(self).slots(), pid) matches Some(i) ==> {
                &&& r is Some
                &&& *r.unwrap() == old(self).slots()[i]
                &&& final(self).slots() == old(self).slots().update(i, *final(r.unwrap()))
            },
    {
        let mut i: usize = 0;
        while i < MAX_PROCS
            invariant
                i <= MAX_PROCS,
                self.procs@.len() == MAX_PROCS,
                *self == *old(self),
                forall|j: int| 0 <= j < i ==> !matches_pid(#[trigger] self.procs@[j], pid),
            decreases MAX_PROCS - i,
        {
            if self.procs[i].state != ProcState::Free && self.procs[i].pid == pid {
                proof { lemma_find_index(self.procs@, pid, i as int); }
                return Some(&mut self.procs[i]);
            }
            i = i + 1;
        }
        proof { lemma_find_none(self.procs@, pid); }
        None
    }

    /// Frees the live process with the pid in the first slot that holds one;
    /// nothing where there is none.
    pub fn free(&mut self, pid: u16)
        requires
            old(self).wf(),
        ensures
            final(self).wf(),
            final(self).next_pid() == old(self).next_pid(),
            find_index(old(self).slots(), pid) is None ==> final(self).slots() == old(self).slots(),
            find_index(old(self).slots(), pid) matches Some(i) ==> final(self).slots() == old(self).slots().update(
                i,
                Process { state: ProcState::Free, ..old(self).slots()[i] },
            ),
    {
        if let Some(proc) = self.find_mut(pid) {
            proc.state = ProcState::Free;
        }
    }

    /// Copies of the live processes, in slot order.
    pub fn active_procs(&self) -> (r: Vec<Process>)
        requires
            self.wf(),
        ensures
            r@ == active_seq(self.slots()),
    {
        let mut r: Vec<Process> = Vec::new();
        let mut i: usize = 0;
        while i < MAX_PROCS
            invariant
                i <= MAX_PROCS,
                self.procs@.len() == MAX_PROCS,
                r@ == active_seq(self.procs@.subrange(0, i as int)),
            decreases MAX_PROCS - i,
        {
            let p = self.procs[i];
            proof {
                assert(self.procs@.subrange(0, i as int + 1).drop_last() =~= self.procs@.subrange(0, i as int));
            }
            if p.state != ProcState::Free {
                r.push(p);
            }
            i = i + 1;
        }
        assert(self.procs@.subrange(0, MAX_PROCS as int) =~= self.procs@);
        r
    }

    /// The slot numbers of the live processes, in order.
    pub fn active_slots(&self) -> (r: Vec<usize>)
        requires
            self.wf(),
        ensures
            forall|k: int| 0 <= k < r@.len() ==> (#[trigger] r@[k]) < MAX_PROCS && is_active(self.slots()[r@[k] as int]),
            forall|k1: int, k2: int| 0 <= k1 < k2 < r@.len() ==> r@[k1] < r@[k2],
            forall|i: int| 0 <= i < MAX_PROCS && is_active(#[trigger] self.slots()[i]) ==> r@.contains(i as usize),
    {
        let mut r: Vec<usize> = Vec::new();
        let mut i: usize = 0;
        while i < MAX_PROCS
            invariant
                i <= MAX_PROCS,
                self.procs@.len() == MAX_PROCS,
                forall|k: int| 0 <= k < r@.len() ==> (#[trigger] r@[k]) < i && is_active(self.procs@[r@[k] as int]),
                forall|k1: int, k2: int| 0 <= k1 < k2 < r@.len() ==> r@[k1] < r@[k2],
                forall|j: int| 0 <= j < i && is_active(#[trigger] self.procs@[j]) ==> r@.contains(j as usize),
            decreases MAX_PROCS - i,
        {
            let ghost r0 = r@;
            if self.procs[i].state != ProcState::Free {
                r.push(i);
                proof {
                    assert(r@[r@.len() - 1] == i);
                    assert forall|j: int| 0 <= j < i && is_active(#[trigger] self.procs@[j]) implies r@.contains(j as usize) by {
                        let k = choose|k: int| 0 <= k < r0.len() && r0[k] == j as usize;
                        assert(r@[k] == j as usize);
                    }
                }
            }
            i = i + 1;
        }
        r
    }

    /// The number of slots whose process is in state `st` (for instance the
    /// frozen processes).
    pub fn count_in_state(&self, st: ProcState) -> (r: usize)
        requires
            self.wf(),
        ensures
            r == count_in(self.slots(), st),
    {
        let mut n: usize = 0;
        let mut i: usize = 0;
        while i < MAX_PROCS
            invariant
                i <= MAX_PROCS,
                self.procs@.len() == MAX_PROCS,
                n == count_in(self.procs@.subrange(0, i as int), st),
                n <= i,
            decreases MAX_PROCS - i,
        {
            proof {
                assert(self.procs@.subrange(0, i as int + 1).drop_last() =~= self.procs@.subrange(0, i as int));
            }
            if self.procs[i].state == st {
                n = n + 1;
            }
            i = i + 1;
        }
        assert(self.procs@.subrange(0, MAX_PROCS as int) =~= self.procs@);
        n
    }

    /// The number of live processes.
    pub fn active_count(&self) -> (r: usize)
        requires
            self.wf(),
        ensures
            r == active_seq(self.slots()).len(),
    {
        let mut n: usize = 0;
        let mut i: usize = 0;
        while i < MAX_PROCS
            invariant
                i <= MAX_PROCS,
                self.procs@.len() == MAX_PROCS,
                n == active_seq(self.procs@.subrange(0, i as int)).len(),
                n <= i,
            decreases MAX_PROCS - i,
        {
            proof {
                assert(self.procs@.subrange(0, i as int + 1).drop_last() =~= self.procs@.subrange(0, i as int));
            }
            if self.procs[i].state != ProcState::Free {
                n = n + 1;
            }
            i = i + 1;
        }
        assert(self.procs@.subrange(0, MAX_PROCS as int) =~= self.procs@);
        n
    }
}

impl ProcessTable {
    /// Applies one audit round, `verdicts[i]` being the verdict for the
    /// process in slot `i` (read for live processes only): first every live
    /// process is judged, then the ones to freeze are frozen by pid.
    pub fn apply_audit(&mut self, verdicts: &Vec<EliminationAction>)
        requires
            old(self).wf(),
            verdicts@.len() == MAX_PROCS,
            strikes_fit(old(self).slots(), verdicts@),
        ensures
            final(self).wf(),
            final(self).next_pid() == old(self).next_pid(),
            final(self).slots() == frozen_all(
                judged(old(self).slots(), verdicts@),
                freeze_list(old(self).slots(), verdicts@, MAX_PROCS as int),
            ),
            forall|i: int| 0 <= i < MAX_PROCS && !is_active(old(self).slots()[i])
                ==> #[trigger] final(self).slots()[i] == old(self).slots()[i],
            forall|i: int| 0 <= i < MAX_PROCS && is_active(old(self).slots()[i]) && verdicts@[i] == EliminationAction::Keep
                ==> (#[trigger] final(self).slots()[i]).audit_strikes == 0,
            live_pids_distinct(old(self).slots()) ==> forall|i: int|
                0 <= i < MAX_PROCS && is_active(old(self).slots()[i]) ==> #[trigger] final(self).slots()[i] == match verdicts@[i] {
                    EliminationAction::Keep => Process { audit_strikes: 0, ..old(self).slots()[i] },
                    EliminationAction::Warn => Process { audit_strikes: (old(self).slots()[i].audit_strikes + 1) as u8, ..old(self).slots()[i] },
                    EliminationAction::Freeze => Process { state: ProcState::Frozen, audit_strikes: 0, ..old(self).slots()[i] },
                },
    {
        let ghost s0 = self.slots();
        let mut to_freeze: Vec<u16> = Vec::new();
        let mut i: usize = 0;
        while i < MAX_PROCS
            invariant
                i <= MAX_PROCS,
                self.wf(),
                self.next_pid() == old(self).next_pid(),
                s0 == old(self).slots(),
                s0.len() == MAX_PROCS,
                verdicts@.len() == MAX_PROCS,
                strikes_fit(s0, verdicts@),
                to_freeze@ == freeze_list(s0, verdicts@, i as int),
                forall|j: int| 0 <= j < i ==> #[trigger] self.slots()[j] == judged(s0, verdicts@)[j],
                forall|j: int| i <= j < MAX_PROCS ==> #[trigger] self.slots()[j] == s0[j],
            decreases MAX_PROCS - i,
        {
            let p = self.procs[i];
            assert(self.slots()[i as int] == s0[i as int]);
            assert(is_active(s0[i as int]) && verdicts@[i as int] == EliminationAction::Warn
                ==> s0[i as int].audit_strikes < 255);
            let ghost before = self.slots();
            if p.state != ProcState::Free {
                match verdicts[i] {
                    EliminationAction::Keep => {
                        self.procs[i].audit_strikes = 0;
                    },
                    EliminationAction::Warn => {
                        self.procs[i].audit_strikes = p.audit_strikes + 1;
                    },
                    EliminationAction::Freeze => {
                        to_freeze.push(p.pid);
                    },
                }
            }
            proof {
                assert(self.slots()[i as int] == judged(s0, verdicts@)[i as int]);
                assert(forall|j: int| 0 <= j < MAX_PROCS && j != i ==> self.slots()[j] == before[j]);
            }
            i = i + 1;
        }
        assert(self.slots() =~= judged(s0, verdicts@));
        let ghost s1 = self.slots();
        let mut k: usize = 0;
        while k < to_freeze.len()
            invariant
                k <= to_freeze@.len(),
                self.wf(),
                self.next_pid() == old(self).next_pid(),
                self.slots() == frozen_all(s1, to_freeze@.subrange(0, k as int)),
            decreases to_freeze@.len() - k,
        {
            let pid = to_freeze[k];
            proof {
                assert(to_freeze@.subrange(0, k as int + 1).drop_last() =~= to_freeze@.subrange(0, k as int));
            }
            if let Some(proc) = self.find_mut(pid) {
                proc.state = ProcState::Frozen;
                proc.audit_strikes = 0;
            }
            k = k + 1;
        }
        assert(to_freeze@.subrange(0, to_freeze@.len() as int) =~= to_freeze@);
        proof { law_audit_round(s0, verdicts@); }
    }
}


/// No two live processes in `s` share a pid.
pub open spec fn live_pids_distinct(s: Seq<Process>) -> bool {
    forall|i: int, j: int|
        0 <= i < j < s.len() && is_active(#[trigger] s[i]) && is_active(#[trigger] s[j]) ==> s[i].pid != s[j].pid
}

/// A process as an audit freezes it: frozen, with its strikes cleared.
pub open spec fn frozen(p: Process) -> Process {
    Process { state: ProcState::Frozen, audit_strikes: 0, ..p }
}

/// Where no two live processes share a pid, freezing a list of pids freezes
/// exactly the live processes whose pid is on the list and leaves every other
/// slot as it was.
pub proof fn law_frozen_all_per_slot(s: Seq<Process>, pids: Seq<u16>)
    requires
        live_pids_distinct(s),
    ensures
        frozen_all(s, pids).len() == s.len(),
        forall|i: int| 0 <= i < s.len() ==> #[trigger] frozen_all(s, pids)[i] == if is_active(s[i]) && pids.contains(s[i].pid) {
            frozen(s[i])
        } else {
            s[i]
        },
    decreases pids.len(),
{
    if pids.len() > 0 {
        let rest = pids.drop_last();
        let p = pids.last();
        law_frozen_all_per_slot(s, rest);
        let t = frozen_all(s, rest);
        assert forall|i: int| 0 <= i < s.len() implies is_active(#[trigger] t[i]) == is_active(s[i]) && t[i].pid == s[i].pid by {
        }
        assert forall|i: int| 0 <= i < s.len() implies #[trigger] pids.contains(s[i].pid) == (rest.contains(s[i].pid) || s[i].pid == p) by {
            if rest.contains(s[i].pid) {
                let k = choose|k: int| 0 <= k < rest.len() && rest[k] == s[i].pid;
                assert(pids[k] == s[i].pid);
            }
            if pids.contains(s[i].pid) {
                let k = choose|k: int| 0 <= k < pids.len() && pids[k] == s[i].pid;
                if k < rest.len() {
                    assert(rest[k] == s[i].pid);
                }
            }
            if s[i].pid == p {
                assert(pids[pids.len() - 1] == p);
            }
        }
        if exists|k: int| 0 <= k < s.len() && matches_pid(s[k], p) {
            let k = choose|k: int| 0 <= k < s.len() && matches_pid(s[k], p);
            assert(matches_pid(t[k], p));
            assert forall|j: int| 0 <= j < k implies !matches_pid(#[trigger] t[j], p) by {
                assert(is_active(t[j]) == is_active(s[j]) && t[j].pid == s[j].pid);
            }
            lemma_find_index(t, p, k);
            assert forall|i: int| 0 <= i < s.len() implies #[trigger] frozen_all(s, pids)[i] == if is_active(s[i]) && pids.contains(s[i].pid) {
                frozen(s[i])
            } else {
                s[i]
            } by {
                assert(pids.contains(s[i].pid) == (rest.contains(s[i].pid) || s[i].pid == p));
                if i != k && is_active(s[i]) && s[i].pid == p {
                    if i < k {
                        assert(s[i].pid != s[k].pid);
                    } else {
                        assert(s[k].pid != s[i].pid);
                    }
                }
            }
        } else {
            assert forall|j: int| 0 <= j < t.len() implies !matches_pid(#[trigger] t[j], p) by {
                assert(is_active(t[j]) == is_active(s[j]) && t[j].pid == s[j].pid);
                assert(!matches_pid(s[j], p));
            }
            lemma_find_none(t, p);
            assert forall|i: int| 0 <= i < s.len() implies #[trigger] frozen_all(s, pids)[i] == if is_active(s[i]) && pids.contains(s[i].pid) {
                frozen(s[i])
            } else {
                s[i]
            } by {
                assert(pids.contains(s[i].pid) == (rest.contains(s[i].pid) || s[i].pid == p));
                assert(!matches_pid(s[i], p));
            }
        }
    }
}

/// Freezing by pid never touches a free slot, never gives strikes back to a
/// process that had none, and keeps the length.
proof fn lemma_frozen_all_frame(s: Seq<Process>, pids: Seq<u16>)
    ensures
        frozen_all(s, pids).len() == s.len(),
        forall|i: int| 0 <= i < s.len() && !is_active(s[i]) ==> #[trigger] frozen_all(s, pids)[i] == s[i],
        forall|i: int| 0 <= i < s.len() && s[i].audit_strikes == 0 ==> (#[trigger] frozen_all(s, pids)[i]).audit_strikes == 0,
    decreases pids.len(),
{
    if pids.len() > 0 {
        let rest = pids.drop_last();
        lemma_frozen_all_frame(s, rest);
        let t = frozen_all(s, rest);
        if let Some(k) = find_index(t, pids.last()) {
            assert(is_first_match(t, pids.last(), k));
            assert(is_active(t[k]));
        }
    }
}

/// The freeze list holds exactly the pids of the live processes among slots
/// `0..n` whose verdict is `Freeze`.
proof fn lemma_freeze_list_contains(s: Seq<Process>, v: Seq<EliminationAction>, n: int, pid: u16)
    requires
        0 <= n <= s.len(),
        v.len() == s.len(),
    ensures
        freeze_list(s, v, n).contains(pid) <==> exists|j: int|
            0 <= j < n && is_active(#[trigger] s[j]) && v[j] == EliminationAction::Freeze && s[j].pid == pid,
    decreases n,
{
    if n > 0 {
        lemma_freeze_list_contains(s, v, n - 1, pid);
        let l = freeze_list(s, v, n - 1);
        if is_active(s[n - 1]) && v[n - 1] == EliminationAction::Freeze {
            let l2 = l.push(s[n - 1].pid);
            if l2.contains(pid) {
                let k = choose|k: int| 0 <= k < l2.len() && l2[k] == pid;
                if k < l.len() {
                    assert(l[k] == pid);
                }
            }
            if l.contains(pid) {
                let k = choose|k: int| 0 <= k < l.len() && l[k] == pid;
                assert(l2[k] == pid);
            }
            if s[n - 1].pid == pid {
                assert(l2[l.len() as int] == pid);
            }
        }
    }
}

/// The table after one audit round over slots `s` with verdicts `v`.
pub open spec fn audited(s: Seq<Process>, v: Seq<EliminationAction>) -> Seq<Process> {
    frozen_all(judged(s, v), freeze_list(s, v, s.len() as int))
}

/// One audit round, slot by slot: a free slot is untouched, and a live
/// process with verdict `Keep` ends with no strikes. Where no two live
/// processes share a pid, the verdict of each live process decides its
/// slot: `Keep` leaves its state and clears its strikes, `Warn` leaves its
/// state and adds one strike, `Freeze` freezes it and clears its strikes;
/// no other field changes.
pub proof fn law_audit_round(s: Seq<Process>, v: Seq<EliminationAction>)
    requires
        v.len() == s.len(),
        strikes_fit(s, v),
    ensures
        audited(s, v).len() == s.len(),
        forall|i: int| 0 <= i < s.len() && !is_active(s[i]) ==> #[trigger] audited(s, v)[i] == s[i],
        forall|i: int| 0 <= i < s.len() && is_active(s[i]) && v[i] == EliminationAction::Keep
            ==> (#[trigger] audited(s, v)[i]).audit_strikes == 0,
        live_pids_distinct(s) ==> forall|i: int| 0 <= i < s.len() && is_active(s[i]) ==> #[trigger] audited(s, v)[i] == match v[i] {
            EliminationAction::Keep => Process { audit_strikes: 0, ..s[i] },
            EliminationAction::Warn => Process { audit_strikes: (s[i].audit_strikes + 1) as u8, ..s[i] },
            EliminationAction::Freeze => Process { state: ProcState::Frozen, audit_strikes: 0, ..s[i] },
        },
        live_pids_distinct(s) ==> forall|i: int| 0 <= i < s.len() && is_active(s[i]) && v[i] == EliminationAction::Warn
            ==> (#[trigger] audited(s, v)[i]).audit_strikes == s[i].audit_strikes + 1,
{
    let j = judged(s, v);
    let pids = freeze_list(s, v, s.len() as int);
    assert forall|i: int| 0 <= i < s.len() implies is_active(#[trigger] j[i]) == is_active(s[i])
        && j[i].pid == s[i].pid && (!is_active(s[i]) ==> j[i] == s[i])
        && (is_active(s[i]) && v[i] == EliminationAction::Keep ==> j[i].audit_strikes == 0) by {
    }
    lemma_frozen_all_frame(j, pids);
    if live_pids_distinct(s) {
        assert forall|a: int, b: int| 0 <= a < b < j.len() && is_active(#[trigger] j[a]) && is_active(#[trigger] j[b])
            implies j[a].pid != j[b].pid by {
            assert(is_active(s[a]) && is_active(s[b]));
        }
        law_frozen_all_per_slot(j, pids);
        assert forall|i: int| 0 <= i < s.len() && is_active(s[i]) implies #[trigger] audited(s, v)[i] == match v[i] {
            EliminationAction::Keep => Process { audit_strikes: 0, ..s[i] },
            EliminationAction::Warn => Process { audit_strikes: (s[i].audit_strikes + 1) as u8, ..s[i] },
            EliminationAction::Freeze => Process { state: ProcState::Frozen, audit_strikes: 0, ..s[i] },
        } && (v[i] == EliminationAction::Warn ==> audited(s, v)[i].audit_strikes == s[i].audit_strikes + 1) by {
            lemma_freeze_list_contains(s, v, s.len() as int, s[i].pid);
            assert(is_active(j[i]) && j[i].pid == s[i].pid);
            if pids.contains(s[i].pid) {
                let k = choose|k: int|
                    0 <= k < s.len() && is_active(#[trigger] s[k]) && v[k] == EliminationAction::Freeze && s[k].pid == s[i].pid;
                if k < i {
                    assert(s[k].pid != s[i].pid);
                } else if i < k {
                    assert(s[i].pid != s[k].pid);
                }
                assert(v[i] == EliminationAction::Freeze);
            } else {
                if v[i] == EliminationAction::Freeze {
                    assert(is_active(s[i]) && v[i] == EliminationAction::Freeze && s[i].pid == s[i].pid);
                }
            }
            assert(s[i].audit_strikes < 255 || v[i] != EliminationAction::Warn);
        }
    }
}

/// Replacing the process in one slot changes the number of live processes
/// by whether the new one is live minus whether the old one was.
pub proof fn lemma_active_count_update(s: Seq<Process>, i: int, p: Process)
    requires
        0 <= i < s.len(),
    ensures
        active_seq(s.update(i, p)).len() as int == active_seq(s).len() as int
            - (if is_active(s[i]) { 1int } else { 0int }) + (if is_active(p) { 1int } else { 0int }),
    decreases s.len(),
{
    let t = s.update(i, p);
    if i == s.len() - 1 {
        assert(t.drop_last() =~= s.drop_last());
    } else {
        assert(t.drop_last() =~= s.drop_last().update(i, p));
        lemma_active_count_update(s.drop_last(), i, p);
    }
}

/// A table with every slot free has no live process.
pub proof fn law_new_table_empty(s: Seq<Process>)
    requires
        forall|i: int| 0 <= i < s.len() ==> (#[trigger] s[i]).state == ProcState::Free,
    ensures
        active_seq(s).len() == 0,
    decreases s.len(),
{
    if s.len() > 0 {
        law_new_table_empty(s.drop_last());
    }
}

/// Allocating a process: there is one more live process, and where no live
/// process carried the handed-out pid before, looking it up finds the new one.
pub proof fn law_allocate_then_find(before: Seq<Process>, after: Seq<Process>, fresh: Process, pid: u16)
    requires
        free_index(before) is Some,
        is_fresh(fresh, pid),
        after == before.update(free_index(before)->0, fresh),
    ensures
        active_seq(after).len() == active_seq(before).len() + 1,
        find_index(before, pid) is None ==> find_index(after, pid) == Some(free_index(before)->0),
{
    let i = free_index(before)->0;
    let k = choose|k: int| is_first_free(before, k);
    assert(is_first_free(before, k));
    lemma_active_count_update(before, i, fresh);
    if find_index(before, pid) is None {
        assert forall|j: int| 0 <= j < i implies !matches_pid(#[trigger] after[j], pid) by {
            if matches_pid(before[j], pid) {
                lemma_first_match_exists(before, pid, j);
            }
        }
        lemma_find_index(after, pid, i);
    }
}

/// Where some slot holds a live process with the pid, there is a first one.
pub proof fn lemma_first_match_exists(s: Seq<Process>, pid: u16, i: int)
    requires
        0 <= i < s.len(),
        matches_pid(s[i], pid),
    ensures
        find_index(s, pid) is Some,
    decreases i,
{
    if exists|j: int| 0 <= j < i && matches_pid(#[trigger] s[j], pid) {
        let j = choose|j: int| 0 <= j < i && matches_pid(#[trigger] s[j], pid);
        lemma_first_match_exists(s, pid, j);
    } else {
        assert(is_first_match(s, pid, i));
    }
}

/// Freeing a pid: where a live process carried it, there is one live process
/// fewer, and where it was the only one, the pid is no longer found.
pub proof fn law_free_then_find(before: Seq<Process>, after: Seq<Process>, pid: u16)
    requires
        find_index(before, pid) is Some,
        after == before.update(
            find_index(before, pid)->0,
            Process { state: ProcState::Free, ..before[find_index(before, pid)->0] },
        ),
    ensures
        active_seq(after).len() + 1 == active_seq(before).len(),
        (forall|j: int| 0 <= j < before.len() && j != find_index(before, pid)->0
            ==> !matches_pid(#[trigger] before[j], pid)) ==> find_index(after, pid) is None,
{
    let i = find_index(before, pid)->0;
    let k = choose|k: int| is_first_match(before, pid, k);
    assert(is_first_match(before, pid, k));
    lemma_active_count_update(before, i, Process { state: ProcState::Free, ..before[i] });
    if forall|j: int| 0 <= j < before.len() && j != i ==> !matches_pid(#[trigger] before[j], pid) {
        assert forall|j: int| 0 <= j < after.len() implies !matches_pid(#[trigger] after[j], pid) by {
            if j != i {
                assert(!matches_pid(before[j], pid));
            }
        }
    }
}

} // verus!

//! The system-call table: numbers and the dispatcher.

use vstd::prelude::*;

verus! {

/// System-call numbers.
#[derive(Debug, Clone, Copy, PartialEq, Eq, Structural)]
pub enum SyscallNumber {
    Exit,
    Write,
    Read,
    Fork,
    Exec,
    Yield,
    GetPid,
    /// Scheduler state query.
    SchedInfo,
}

impl SyscallNumber {
    /// The number of each call, 1 to 8 in declaration order.
    pub open spec fn spec_code(self) -> u64 {
        match self {
            SyscallNumber::Exit => 1,
            SyscallNumber::Write => 2,
            SyscallNumber::Read => 3,
            SyscallNumber::Fork => 4,
            SyscallNumber::Exec => 5,
            SyscallNumber::Yield => 6,
            SyscallNumber::GetPid => 7,
            SyscallNumber::SchedInfo => 8,
        }
    }

    /// The call's number.
    pub fn code(self) -> (r: u64)
        ensures
            r == self.spec_code(),
    {
        match self {
            SyscallNumber::Exit => 1,
            SyscallNumber::Write => 2,
            SyscallNumber::Read => 3,
            SyscallNumber::Fork => 4,
            SyscallNumber::Exec => 5,
            SyscallNumber::Yield => 6,
            SyscallNumber::GetPid => 7,
            SyscallNumber::SchedInfo => 8,
        }
    }
}

/// What a system call returns: 0 for exit, write, read, fork, yield and
/// getpid (not wired to the kernel yet), `u64::MAX` (failure) for exec,
/// 1000 (pressure 1.0 in thousandths) for sched_info, `u64::MAX` for an
/// unknown number.
pub open spec fn syscall_result(num: u64) -> u64 {
    if num == 1 || num == 2 || num == 3 || num == 4 || num == 6 || num == 7 {
        0
    } else if num == 8 {
        1000
    } else {
        u64::MAX
    }
}

/// What each call number gives: 0 for exit, write, read, fork, yield and
/// getpid; 1000 for sched_info; `u64::MAX` (failure) for exec and for every
/// number that names no call.
pub proof fn law_syscall_results(num: u64)
    ensures
        num == SyscallNumber::Exit.spec_code() || num == SyscallNumber::Write.spec_code()
            || num == SyscallNumber::Read.spec_code() || num == SyscallNumber::Fork.spec_code()
            || num == SyscallNumber::Yield.spec_code() || num == SyscallNumber::GetPid.spec_code()
            ==> syscall_result(num) == 0,
        num == SyscallNumber::SchedInfo.spec_code() ==> syscall_result(num) == 1000,
        num == SyscallNumber::Exec.spec_code() ==> syscall_result(num) == u64::MAX,
        (forall|c: SyscallNumber| num != #[trigger] c.spec_code()) ==> syscall_result(num) == u64::MAX,
{
    if forall|c: SyscallNumber| num != #[trigger] c.spec_code() {
        assert(num != SyscallNumber::Exit.spec_code());
        assert(num != SyscallNumber::Write.spec_code());
        assert(num != SyscallNumber::Read.spec_code());
        assert(num != SyscallNumber::Fork.spec_code());
        assert(num != SyscallNumber::Exec.spec_code());
        assert(num != SyscallNumber::Yield.spec_code());
        assert(num != SyscallNumber::GetPid.spec_code());
        assert(num != SyscallNumber::SchedInfo.spec_code());
    }
}

/// System-call dispatcher.
pub struct SyscallHandler;

impl SyscallHandler {
    /// Dispatches call `num` (arguments in rdi, rsi, rdx) and returns the
    /// value for rax.
    pub fn handle(num: u64, arg1: u64, arg2: u64, arg3: u64) -> (r: u64)
        ensures
            r == syscall_result(num),
            num == SyscallNumber::Exit.spec_code() || num == SyscallNumber::Write.spec_code()
                || num == SyscallNumber::Read.spec_code() || num == SyscallNumber::Fork.spec_code()
                || num == SyscallNumber::Yield.spec_code() || num == SyscallNumber::GetPid.spec_code() ==> r == 0,
            num == SyscallNumber::SchedInfo.spec_code() ==> r == 1000,
            num == SyscallNumber::Exec.spec_code() ==> r == u64::MAX,
            (forall|c: SyscallNumber| num != #[trigger] c.spec_code()) ==> r == u64::MAX,
    {
        let _ = (arg1, arg2, arg3);
        proof { law_syscall_results(num); }
        match num {
            1 => 0,
            2 => 0,
            3 => 0,
            4 => 0,
            5 => u64::MAX,
            6 => 0,
            7 => 0,
            8 => 1000,
            _ => u64::MAX,
        }
    }
}

} // verus!

use bagua_os::kernel::elimination::EliminationAction;
use bagua_os::kernel::process::{Process, ProcState, ProcessTable, MAX_PROCS};
use bagua_os::kernel::task_gate::TaskClass;

#[test]
fn test_new_process_is_fresh() {
    let p = Process::new(42);
    assert_eq!(p.pid, 42);
    assert_eq!(p.state, ProcState::Ready);
    assert_eq!(p.slot_id, 0);
    assert_eq!(p.task_class, TaskClass::Mixed);
    assert_eq!(p.recent_syscalls, [0; 8]);
    assert_eq!(p.syscall_idx, 0);
    assert!(p.recent_syscalls_slice().is_empty());
}

#[test]
fn test_record_syscall_ring() {
    let mut p = Process::new(1);
    for n in 1..=3u64 {
        p.record_syscall(n);
    }
    assert_eq!(p.recent_syscalls_slice(), &[1, 2, 3]);
    assert_eq!(p.syscall_count, 3);
    for n in 4..=10u64 {
        p.record_syscall(n);
    }
    assert_eq!(p.recent_syscalls_slice(), &[9, 10, 3, 4, 5, 6, 7, 8]);
    assert_eq!(p.syscall_idx, 10);
}

#[test]
fn test_record_syscall_history_survives_index_wrap() {
    let mut p = Process::new(1);
    for n in 0..256u64 {
        p.record_syscall(n);
    }
    assert_eq!(p.syscall_idx, 0);
    assert_eq!(p.recent_syscalls_slice(), &[248, 249, 250, 251, 252, 253, 254, 255]);
    assert_eq!(p.syscall_count, 256);
}

#[test]
fn test_new_table_all_free() {
    let t = ProcessTable::new();
    assert_eq!(t.procs.len(), MAX_PROCS);
    assert_eq!(t.active_count(), 0);
    assert!(t.find(0).is_none());
    assert_eq!(t.procs[17].pid, 17);
    assert_eq!(t.procs[17].state, ProcState::Free);
}

#[test]
fn test_process_spawn_and_kill() {
    let mut t = ProcessTable::new();
    let pid = t.allocate().unwrap().pid;
    assert_eq!(pid, 0);
    let pid2 = {
        let p = t.allocate().unwrap();
        p.slot_id = 4;
        p.pid
    };
    assert_eq!(pid2, 1);
    assert_eq!(t.active_count(), 2);
    assert_eq!(t.find(1).unwrap().slot_id, 4);
    t.free(0);
    assert!(t.find(0).is_none());
    assert_eq!(t.active_count(), 1);
    let pid3 = t.allocate().unwrap().pid;
    assert_eq!(pid3, 2);
    assert_eq!(t.procs[0].pid, 2);
    assert_eq!(t.active_slots(), vec![0, 1]);
}

#[test]
fn test_table_full() {
    let mut t = ProcessTable::new();
    for _ in 0..MAX_PROCS {
        assert!(t.allocate().is_some());
    }
    assert!(t.allocate().is_none());
    assert_eq!(t.active_count(), MAX_PROCS);
}

#[test]
fn test_find_mut_changes_process() {
    let mut t = ProcessTable::new();
    t.allocate();
    t.find_mut(0).unwrap().cpu_ticks = 77;
    assert_eq!(t.find(0).unwrap().cpu_ticks, 77);
    assert!(t.find_mut(5).is_none());
}

#[test]
fn test_active_procs_in_slot_order() {
    let mut t = ProcessTable::new();
    for _ in 0..4 {
        t.allocate();
    }
    t.free(1);
    let pids: Vec<u16> = t.active_procs().iter().map(|p| p.pid).collect();
    assert_eq!(pids, vec![0, 2, 3]);
}

#[test]
fn test_audit_freeze_low_quality_processes() {
    let mut t = ProcessTable::new();
    for _ in 0..4 {
        t.allocate();
    }
    t.procs[1].audit_strikes = 2;
    t.procs[2].audit_strikes = 5;
    let mut verdicts = vec![EliminationAction::Keep; MAX_PROCS];
    verdicts[1] = EliminationAction::Warn;
    verdicts[2] = EliminationAction::Freeze;
    verdicts[3] = EliminationAction::Keep;
    verdicts[10] = EliminationAction::Freeze;
    t.apply_audit(&verdicts);
    assert_eq!(t.procs[0].audit_strikes, 0);
    assert_eq!(t.procs[1].audit_strikes, 3);
    assert_eq!(t.procs[2].state, ProcState::Frozen);
    assert_eq!(t.procs[2].audit_strikes, 0);
    assert_eq!(t.procs[3].state, ProcState::Ready);
    assert_eq!(t.procs[10].state, ProcState::Free);
    assert_eq!(t.active_count(), 4);
    assert_eq!(t.count_in_state(ProcState::Frozen), 1);
    assert_eq!(t.count_in_state(ProcState::Free), MAX_PROCS - 4);
}

#[test]
fn test_recent_history_after_wrap_then_more_calls() {
    let mut p = Process::new(3);
    for n in 0..259u64 {
        p.record_syscall(n);
    }
    assert_eq!(p.syscall_idx, 3);
    assert_eq!(p.recent_syscalls_slice(), &[256, 257, 258, 251, 252, 253, 254, 255]);
}

#[test]
fn test_new_table_slots_are_fresh_free_processes() {
    let t = ProcessTable::new();
    for i in [0usize, 5, MAX_PROCS - 1] {
        let p = &t.procs[i];
        assert_eq!(p.pid as usize, i);
        assert_eq!(p.state, ProcState::Free);
        assert_eq!(p.task_class, TaskClass::Mixed);
        assert_eq!((p.audit_strikes, p.cpu_ticks, p.syscall_count, p.syscall_idx), (0, 0, 0, 0));
        assert_eq!(p.recent_syscalls, [0; 8]);
    }
}

use bagua_os::kernel::fork_exec::{ForkResult, ProcessSpawner};
use bagua_os::kernel::process::ProcState;

#[test]
fn test_fork_cow_creates_child() {
    let mut sp = ProcessSpawner::new();
    let parent = sp.proc_table_mut().allocate().unwrap();
    parent.slot_id = 6;
    let r = sp.fork_cow(0);
    match r {
        Ok(ForkResult::Parent(child)) => {
            assert_eq!(child, 1);
            let c = sp.proc_table().find(child).unwrap();
            assert_eq!(c.slot_id, 6);
            assert_eq!(c.state, ProcState::Ready);
        }
        _ => panic!("fork failed"),
    }
    assert_eq!(sp.proc_table().active_count(), 2);
}

#[test]
fn test_fork_cow_missing_parent() {
    let mut sp = ProcessSpawner::new();
    assert!(matches!(sp.fork_cow(3), Err("parent process not found")));
    assert_eq!(sp.proc_table().active_count(), 0);
}

#[test]
fn test_fork_cow_table_full() {
    let mut sp = ProcessSpawner::new();
    for _ in 0..256 {
        sp.proc_table_mut().allocate();
    }
    assert!(matches!(sp.fork_cow(0), Err("process table full")));
}

#[test]
fn test_fork_clean_no_memory_inheritance() {
    let mut sp = ProcessSpawner::new();
    let parent = sp.proc_table_mut().allocate().unwrap();
    parent.slot_id = 5;
    match sp.fork_clean(0, b"init") {
        Ok(ForkResult::Parent(child)) => {
            let c = sp.proc_table().find(child).unwrap();
            assert_eq!(c.slot_id, 0);
            assert_eq!(c.state, ProcState::Ready);
        }
        _ => panic!("fork failed"),
    }
    assert_eq!(sp.page_mgr().map_count(), 0);
    assert_eq!(sp.page_mgr().translate(0x1000), None);
}

#[test]
fn test_process_reap() {
    let mut sp = ProcessSpawner::new();
    sp.proc_table_mut().allocate();
    let child = match sp.fork_clean(0, &[]) {
        Ok(ForkResult::Parent(c)) => c,
        _ => panic!("fork failed"),
    };
    sp.reap(child);
    assert!(sp.proc_table().find(child).is_none());
    assert_eq!(sp.proc_table().active_count(), 1);
    assert_eq!(sp.exec(0, b"\x7fELF"), Ok(()));
}

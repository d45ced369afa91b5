use bagua_os::kernel::elimination::{strike_verdict, EliminationAction, MAX_STRIKES};
use bagua_os::hal::device::DeviceClass;
use bagua_os::kernel::task_gate::{ScheduleStrategy, TaskClass, TaskPerceptor};
use bagua_os::kernel::{TrigramSlot, NUM_SLOTS};
use bagua_os::machine::interrupts::InterruptIndex;
use bagua_os::machine::syscall::{SyscallHandler, SyscallNumber};

#[test]
fn test_trigram_slots() {
    let all = TrigramSlot::ALL;
    for (i, s) in all.iter().enumerate() {
        assert_eq!(s.index(), i);
    }
    assert_eq!(all.len(), NUM_SLOTS);
}

#[test]
fn test_device_classes_from_slots() {
    assert_eq!(DeviceClass::from_slot(TrigramSlot::Slot0), DeviceClass::Cpu);
    assert_eq!(DeviceClass::from_slot(TrigramSlot::Slot1), DeviceClass::CarbonScheduler);
    assert_eq!(DeviceClass::from_slot(TrigramSlot::Slot3), DeviceClass::QuantumUnit);
    assert_eq!(DeviceClass::from_slot(TrigramSlot::Slot6), DeviceClass::Gpu);
    assert_eq!(DeviceClass::from_slot(TrigramSlot::Slot7), DeviceClass::SensorIO);
}

#[test]
fn test_task_perceptor_five_classes() {
    let mut tp = TaskPerceptor::new();
    assert_eq!(tp.current_class(), TaskClass::Mixed);
    assert_eq!(tp.select_strategy(), ScheduleStrategy::Mixed);
    assert_eq!(tp.identify(&[9, 12, 12, 0]), TaskClass::Mixed);
    assert_eq!(tp.select_strategy(), ScheduleStrategy::Mixed);
    assert_eq!(TaskClass::from_syscall_pattern(&[]), TaskClass::Mixed);
}

#[test]
fn test_syscall_dispatch() {
    assert_eq!(SyscallHandler::handle(1, 0, 0, 0), 0);
    assert_eq!(SyscallHandler::handle(2, 1, 2, 3), 0);
    assert_eq!(SyscallHandler::handle(5, 0, 0, 0), u64::MAX);
    assert_eq!(SyscallHandler::handle(8, 0, 0, 0), 1000);
    assert_eq!(SyscallHandler::handle(0, 0, 0, 0), u64::MAX);
    assert_eq!(SyscallHandler::handle(99, 0, 0, 0), u64::MAX);
    assert_eq!(SyscallNumber::Exit.code(), 1);
    assert_eq!(SyscallNumber::SchedInfo.code(), 8);
    assert_eq!(SyscallHandler::handle(SyscallNumber::GetPid.code(), 0, 0, 0), 0);
}

#[test]
fn test_interrupt_vectors() {
    assert_eq!(InterruptIndex::Timer.as_u8(), 32);
    assert_eq!(InterruptIndex::Keyboard.as_u8(), 33);
    assert_eq!(InterruptIndex::Keyboard.as_usize(), 33);
}

#[test]
fn test_strike_verdict() {
    assert_eq!(strike_verdict(true, 200), EliminationAction::Keep);
    assert_eq!(strike_verdict(false, 0), EliminationAction::Warn);
    assert_eq!(strike_verdict(false, MAX_STRIKES - 1), EliminationAction::Warn);
    assert_eq!(strike_verdict(false, MAX_STRIKES), EliminationAction::Freeze);
}

use bagua_os::hal::compat::{jiuzhou_to_phys, phys_to_jiuzhou, request_irq};
use bagua_os::kernel::memory::{JiuzhouAddress, ProcessIsolator};

#[test]
fn test_physical_split() {
    let a = JiuzhouAddress::from_physical(0x6000_0000_0123_4567);
    assert_eq!(a.slot_id, 3);
    assert_eq!(a.object_id, 0x9);
    assert_eq!(a.offset, 0x3_4567);
    let b = JiuzhouAddress::from_physical(0xFFFF_FFFF_FFFF_FFFF);
    assert_eq!((b.slot_id, b.object_id, b.offset), (7, 0xFF_FFFF_FFFF, 0x1F_FFFF));
}

#[test]
fn test_physical_round_trip() {
    for p in [0xF123_4567_89AB_CDEFu64, 0, 1, 0x5123_4567_89AB_CDEF, u64::MAX] {
        assert_eq!(JiuzhouAddress::from_physical(p).to_physical(), p);
    }
}

#[test]
fn test_fields_round_trip() {
    let a = JiuzhouAddress { slot_id: 7, object_id: 0xFF_FFFF_FFFF, offset: 0x1F_FFFF };
    let b = JiuzhouAddress::from_physical(a.to_physical());
    assert_eq!((b.slot_id, b.object_id, b.offset), (7, 0xFF_FFFF_FFFF, 0x1F_FFFF));
    let c = JiuzhouAddress { slot_id: 2, object_id: 0x1234, offset: 0x10 };
    let d = JiuzhouAddress::from_physical(c.to_physical());
    assert_eq!((d.slot_id, d.object_id, d.offset), (2, 0x1234, 0x10));
}

#[test]
fn test_from_virtual() {
    let a = JiuzhouAddress::from_virtual(0x0060_1234, 5);
    assert_eq!(a.slot_id, 5);
    assert_eq!(a.object_id, 3);
    assert_eq!(a.offset, 0x1234);
    assert_eq!(a.to_physical(), (5u64 << 61) | 0x0060_1234);
}

#[test]
fn test_to_physical_truncates_wide_fields() {
    let a = JiuzhouAddress { slot_id: 0x1F, object_id: 0, offset: 0 };
    assert_eq!(a.to_physical(), 0xE000_0000_0000_0000);
}

#[test]
fn test_isolator_stubs() {
    assert_eq!(ProcessIsolator::fork_cow(9), 0);
    assert_eq!(ProcessIsolator::fork_clean(9, b"ctx"), 0);
    ProcessIsolator::exit_reset(9);
}

#[test]
fn test_compat_conversions() {
    let a = phys_to_jiuzhou(0x6000_0000_0020_0001);
    assert_eq!(a.slot_id, 3);
    assert_eq!(a.object_id, 1);
    assert_eq!(a.offset, 1);
    assert_eq!(jiuzhou_to_phys(&a), 0x6000_0000_0020_0001);
}

fn handler() {}

#[test]
fn test_request_irq_accepts() {
    assert!(request_irq(3, handler).is_ok());
}

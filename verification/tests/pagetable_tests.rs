use bagua_os::kernel::memory::JiuzhouAddress;
use bagua_os::kernel::pagetable::{PageTableEntry, PageTableManager, ADDR_MASK};

#[test]
fn test_page_table_map_and_translate() {
    let mut pt = PageTableManager::new();
    let r = pt.map(0x4000_1000, 0x20_0000, true);
    assert_eq!(r, Ok(None));
    assert_eq!(pt.translate(0x4000_1000), Some(0x20_0000));
    assert_eq!(pt.translate(0x4000_1abc), Some(0x20_0abc));
    assert_eq!(pt.translate(0x4000_2000), None);
    assert_eq!(pt.map_count(), 1);
}

#[test]
fn test_new_table_translates_nothing() {
    let pt = PageTableManager::new();
    assert_eq!(pt.translate(0), None);
    assert_eq!(pt.translate(0xFFFF_FFFF_FFFF_FFFF), None);
    assert_eq!(pt.map_count(), 0);
}

#[test]
fn test_remap_returns_previous_frame() {
    let mut pt = PageTableManager::new();
    assert_eq!(pt.map(0x1000, 0x5000, false), Ok(None));
    assert_eq!(pt.map(0x1000, 0x9000, true), Ok(Some(0x5000)));
    assert_eq!(pt.translate(0x1010), Some(0x9010));
    assert_eq!(pt.map_count(), 2);
}

#[test]
fn test_unmap_returns_frame_and_clears() {
    let mut pt = PageTableManager::new();
    pt.map(0x7000_0000, 0xABC_D000, true).unwrap();
    pt.map(0x7000_1000, 0x1234_5000, true).unwrap();
    assert_eq!(pt.unmap(0x7000_0000), Ok(Some(0xABC_D000)));
    assert_eq!(pt.translate(0x7000_0000), None);
    assert_eq!(pt.translate(0x7000_1008), Some(0x1234_5008));
    assert_eq!(pt.map_count(), 1);
}

#[test]
fn test_unmap_missing_path_changes_nothing() {
    let mut pt = PageTableManager::new();
    pt.map(0x1000, 0x2000, true).unwrap();
    assert_eq!(pt.unmap(0x8000_0000_0000), Ok(None));
    assert_eq!(pt.map_count(), 1);
    assert_eq!(pt.translate(0x1000), Some(0x2000));
}

#[test]
fn test_unmap_unmapped_page_in_existing_table_still_counts_down() {
    let mut pt = PageTableManager::new();
    pt.map(0x1000, 0x2000, true).unwrap();
    assert_eq!(pt.unmap(0x3000), Ok(None));
    assert_eq!(pt.map_count(), 0);
    assert_eq!(pt.unmap(0x3000), Ok(None));
    assert_eq!(pt.map_count(), 0);
}

#[test]
fn test_map_masks_frame_address() {
    let mut pt = PageTableManager::new();
    pt.map(0x5000, 0xFFFF_FFFF_FFFF_FFFF, true).unwrap();
    assert_eq!(pt.translate(0x5123), Some(ADDR_MASK + 0x123));
}

#[test]
fn test_addresses_alias_above_bit_48() {
    let mut pt = PageTableManager::new();
    pt.map(0x1000, 0x6000, true).unwrap();
    assert_eq!(pt.translate(0xFFFF_0000_0000_1004), Some(0x6004));
}

#[test]
fn test_map_then_unmap_restores() {
    let mut pt = PageTableManager::new();
    pt.map(0x40_0000, 0x80_0000, false).unwrap();
    let before = pt.map_count();
    pt.map(0x40_1000, 0x90_0000, false).unwrap();
    assert_eq!(pt.unmap(0x40_1000), Ok(Some(0x90_0000)));
    assert_eq!(pt.map_count(), before);
    assert_eq!(pt.translate(0x40_1000), None);
    assert_eq!(pt.translate(0x40_0000), Some(0x80_0000));
}

#[test]
fn test_map_jiuzhou_translates_joined_address() {
    let mut pt = PageTableManager::new();
    let addr = JiuzhouAddress { slot_id: 0, object_id: 3, offset: 0x10 };
    pt.map(0x60_0000, 0x77_7000, true).unwrap();
    assert_eq!(pt.map_jiuzhou(&addr), Some(0x77_7010));
    let far = JiuzhouAddress { slot_id: 1, object_id: 3, offset: 0x10 };
    assert_eq!(pt.map_jiuzhou(&far), Some(0x77_7010));
}

#[test]
fn test_entry_flags() {
    let e = PageTableEntry::new(0x1234_5678, 0x83);
    assert!(e.is_present());
    assert!(e.is_writable());
    assert!(e.is_huge());
    assert_eq!(e.address(), 0x1234_5000);
    let r = PageTableEntry::present(0x2000);
    assert!(r.is_present());
    assert!(!r.is_writable());
    let w = PageTableEntry::present_writable(0x3000);
    assert!(w.is_writable());
    assert_eq!(w.address(), 0x3000);
    let empty = PageTableEntry::default();
    assert!(!empty.is_present());
    assert_eq!(empty.address(), 0);
    assert!(!PageTableEntry::empty().is_present());
}

#[test]
fn test_counter_counts_mapped_pages_under_discipline() {
    let mut pt = PageTableManager::new();
    for page in 0..5u64 {
        assert_eq!(pt.translate(page << 12), None);
        assert_eq!(pt.map(page << 12, 0x10_0000 + (page << 12), true), Ok(None));
    }
    assert_eq!(pt.map_count(), 5);
    assert_eq!(pt.unmap(2 << 12), Ok(Some(0x10_2000)));
    assert_eq!(pt.unmap(4 << 12), Ok(Some(0x10_4000)));
    let mapped = (0..8u64).filter(|p| pt.translate(p << 12).is_some()).count();
    assert_eq!(pt.map_count(), mapped);
    assert_eq!(mapped, 3);
}

#[test]
fn test_translate_is_page_start_plus_offset() {
    let mut pt = PageTableManager::new();
    pt.map(0x7000, 0x3_4000, false).unwrap();
    for v in [0x7000u64, 0x7001, 0x7abc, 0x7fff, 0xFFFF_0000_0000_7123] {
        let start = pt.translate(v & !0xFFF).unwrap();
        assert_eq!(pt.translate(v), Some(start + (v & 0xFFF)));
        assert_eq!(pt.translate(v), pt.translate(v & 0x0000_FFFF_FFFF_FFFF));
        assert_eq!(pt.translate(v).unwrap() & 0xFFF, v & 0xFFF);
    }
}

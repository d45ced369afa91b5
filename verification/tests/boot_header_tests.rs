use bagua_os::machine::boot_header::{multiboot2_header, pvh_note};

#[test]
fn test_multiboot2_header_bytes() {
    let h = multiboot2_header();
    assert_eq!(&h[0..4], &[0xD6, 0x50, 0x52, 0xE8]);
    assert_eq!(&h[8..12], &[24, 0, 0, 0]);
    assert_eq!(&h[12..16], &[0x12, 0xAF, 0xAD, 0x17]);
    assert_eq!(&h[16..24], &[0; 8]);
}

#[test]
fn test_multiboot2_checksum_sums_to_zero() {
    let h = multiboot2_header();
    let word = |o: usize| u32::from_le_bytes([h[o], h[o + 1], h[o + 2], h[o + 3]]);
    let sum = word(0).wrapping_add(word(4)).wrapping_add(word(8)).wrapping_add(word(12));
    assert_eq!(sum, 0);
}

#[test]
fn test_pvh_note_bytes() {
    let n = pvh_note();
    assert_eq!(&n[0..12], &[4, 0, 0, 0, 4, 0, 0, 0, 18, 0, 0, 0]);
    assert_eq!(&n[12..16], b"Xen\0");
    assert_eq!(&n[16..24], &[0; 8]);
}

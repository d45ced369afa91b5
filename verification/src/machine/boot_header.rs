//! Boot headers placed in the kernel image: the Multiboot2 header that
//! bootloaders scan for, and the PVH ELF note that QEMU reads.

use vstd::prelude::*;

verus! {

/// Multiboot2 header magic.
pub const MULTIBOOT2_MAGIC: u32 = 0xE852_50D6u32;
/// Multiboot2 architecture: i386 protected mode.
pub const MULTIBOOT2_ARCH: u32 = 0;
/// Header length in bytes.
pub const MULTIBOOT2_LENGTH: u32 = 24;

/// The checksum field: what makes magic, architecture, length and checksum
/// add up to 0 modulo 2^32.
pub open spec fn multiboot2_checksum() -> u32 {
    (0x1_0000_0000 - ((MULTIBOOT2_MAGIC + MULTIBOOT2_ARCH + MULTIBOOT2_LENGTH) % 0x1_0000_0000)) as u32
}

/// The Multiboot2 header: magic, architecture and length as little-endian
/// words, then the checksum; the end tag is all zeros.
pub fn multiboot2_header() -> (h: [u8; 24])
    ensures
        h@ == seq![
            0xD6u8, 0x50, 0x52, 0xE8, 0, 0, 0, 0, 24, 0, 0, 0,
            (multiboot2_checksum() & 0xFF) as u8,
            ((multiboot2_checksum() >> 8u32) & 0xFF) as u8,
            ((multiboot2_checksum() >> 16u32) & 0xFF) as u8,
            ((multiboot2_checksum() >> 24u32) & 0xFF) as u8,
            0, 0, 0, 0, 0, 0, 0, 0,
        ],
        (MULTIBOOT2_MAGIC + MULTIBOOT2_ARCH + MULTIBOOT2_LENGTH + multiboot2_checksum()) % 0x1_0000_0000 == 0,
{
    let mut h = [0u8; 24];
    h[0] = 0xD6;
    h[1] = 0x50;
    h[2] = 0x52;
    h[3] = 0xE8;
    h[8] = 24;
    let cs = MULTIBOOT2_MAGIC.wrapping_add(MULTIBOOT2_ARCH).wrapping_add(MULTIBOOT2_LENGTH);
    let cs = 0u32.wrapping_sub(cs);
    assert(cs == multiboot2_checksum());
    h[12] = (cs & 0xFF) as u8;
    h[13] = ((cs >> 8) & 0xFF) as u8;
    h[14] = ((cs >> 16) & 0xFF) as u8;
    h[15] = ((cs >> 24) & 0xFF) as u8;
    assert(h@ =~= seq![
        0xD6u8, 0x50, 0x52, 0xE8, 0, 0, 0, 0, 24, 0, 0, 0,
        (multiboot2_checksum() & 0xFF) as u8,
        ((multiboot2_checksum() >> 8u32) & 0xFF) as u8,
        ((multiboot2_checksum() >> 16u32) & 0xFF) as u8,
        ((multiboot2_checksum() >> 24u32) & 0xFF) as u8,
        0, 0, 0, 0, 0, 0, 0, 0,
    ]);
    h
}

/// The PVH ELF note: name size 4, descriptor size 4, type 18
/// (XEN_ELFNOTE_PHYS32_ENTRY), name "Xen\0"; the entry field is left zero.
pub fn pvh_note() -> (n: [u8; 24])
    ensures
        n@ == seq![4u8, 0, 0, 0, 4, 0, 0, 0, 18, 0, 0, 0, 0x58, 0x65, 0x6E, 0, 0, 0, 0, 0, 0, 0, 0, 0],
{
    let mut n = [0u8; 24];
    n[0] = 4;
    n[4] = 4;
    n[8] = 18;
    n[12] = 0x58;
    n[13] = 0x65;
    n[14] = 0x6E;
    n[15] = 0;
    assert(n@ =~= seq![4u8, 0, 0, 0, 4, 0, 0, 0, 18, 0, 0, 0, 0x58, 0x65, 0x6E, 0, 0, 0, 0, 0, 0, 0, 0, 0]);
    n
}

} // verus!

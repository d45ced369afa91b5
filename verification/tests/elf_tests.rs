use bagua_os::machine::elf::{Elf64Header, Elf64ProgramHeader, ElfError, ElfLoader};

fn header(phoff: u64, phnum: u16) -> Vec<u8> {
    let mut d = vec![0u8; 64];
    d[0..4].copy_from_slice(&[0x7F, b'E', b'L', b'F']);
    d[4] = 2;
    d[5] = 1;
    d[16..18].copy_from_slice(&2u16.to_le_bytes());
    d[18..20].copy_from_slice(&62u16.to_le_bytes());
    d[20..24].copy_from_slice(&1u32.to_le_bytes());
    d[24..32].copy_from_slice(&0x40_1000u64.to_le_bytes());
    d[32..40].copy_from_slice(&phoff.to_le_bytes());
    d[52..54].copy_from_slice(&64u16.to_le_bytes());
    d[54..56].copy_from_slice(&56u16.to_le_bytes());
    d[56..58].copy_from_slice(&phnum.to_le_bytes());
    d
}

fn program_header(ptype: u32, offset: u64, filesz: u64) -> Vec<u8> {
    let mut p = vec![0u8; 56];
    p[0..4].copy_from_slice(&ptype.to_le_bytes());
    p[8..16].copy_from_slice(&offset.to_le_bytes());
    p[16..24].copy_from_slice(&0x40_0000u64.to_le_bytes());
    p[32..40].copy_from_slice(&filesz.to_le_bytes());
    p[40..48].copy_from_slice(&(filesz + 16).to_le_bytes());
    p
}

#[test]
fn test_elf_counts_load_segments() {
    let mut d = header(64, 3);
    d.extend(program_header(1, 0, 100));
    d.extend(program_header(4, 0, 8));
    d.extend(program_header(1, 64, 32));
    let r = ElfLoader::load(&d).unwrap();
    assert_eq!(r.entry_point, 0x40_1000);
    assert_eq!(r.segments_loaded, 2);
}

#[test]
fn test_elf_stops_at_header_past_end() {
    let mut d = header(64, 5);
    d.extend(program_header(1, 0, 10));
    d.extend(program_header(1, 0, 10));
    let r = ElfLoader::load(&d).unwrap();
    assert_eq!(r.segments_loaded, 2);
}

#[test]
fn test_elf_errors() {
    assert!(matches!(ElfLoader::load(&[0u8; 10]), Err(ElfError::TooSmall)));
    let mut d = header(64, 0);
    d[1] = b'X';
    assert!(matches!(ElfLoader::load(&d), Err(ElfError::BadMagic)));
    let mut d = header(64, 0);
    d[4] = 1;
    assert!(matches!(ElfLoader::load(&d), Err(ElfError::Not64Bit)));
    let mut d = header(64, 0);
    d[16] = 3;
    assert!(matches!(ElfLoader::load(&d), Err(ElfError::NotExecutable)));
    let mut d = header(64, 0);
    d[18] = 40;
    assert!(matches!(ElfLoader::load(&d), Err(ElfError::WrongArchitecture)));
    let mut d = header(64, 1);
    d.extend(program_header(1, 100, 100));
    assert!(matches!(ElfLoader::load(&d), Err(ElfError::SegmentOutOfBounds)));
}

#[test]
fn test_elf_no_program_headers() {
    let d = header(0, 0);
    let r = ElfLoader::load(&d).unwrap();
    assert_eq!(r.segments_loaded, 0);
    assert_eq!(r.entry_point, 0x40_1000);
}

#[test]
fn test_elf_header_fields() {
    let d = header(64, 7);
    let h = Elf64Header::from_bytes(&d);
    assert_eq!(h.etype, 2);
    assert_eq!(h.machine, 62);
    assert_eq!(h.version, 1);
    assert_eq!(h.phoff, 64);
    assert_eq!(h.ehsize, 64);
    assert_eq!(h.phentsize, 56);
    assert_eq!(h.phnum, 7);
    assert_eq!(h.ident[1], b'E');
    let p = program_header(1, 8, 24);
    let ph = Elf64ProgramHeader::from_bytes(&p, 0);
    assert_eq!(ph.ptype, 1);
    assert_eq!(ph.offset, 8);
    assert_eq!(ph.vaddr, 0x40_0000);
    assert_eq!(ph.filesz, 24);
    assert_eq!(ph.memsz, 40);
}

#[test]
fn test_try_load_reports_offset_overflow() {
    let d = header(u64::MAX - 10, 1);
    assert!(ElfLoader::try_load(&d).is_none());
    let mut d = header(64, 1);
    d.extend(program_header(1, u64::MAX, 2));
    assert!(ElfLoader::try_load(&d).is_none());
    let mut d = header(64, 1);
    d.extend(program_header(1, 0, 100));
    assert!(matches!(ElfLoader::try_load(&d), Some(Ok(p)) if p.segments_loaded == 1));
    assert!(matches!(ElfLoader::try_load(&[0u8; 3]), Some(Err(ElfError::TooSmall))));
}

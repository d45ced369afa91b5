//! ELF64 loader: checks the file header and walks the program headers,
//! counting the loadable segments, and returns the entry point.

use vstd::prelude::*;
use vstd::bytes::{
    spec_u16_from_le_bytes, spec_u32_from_le_bytes, spec_u64_from_le_bytes, u16_from_le_bytes,
    u32_from_le_bytes, u64_from_le_bytes,
};

verus! {

/// Size of the ELF64 file header.
pub const ELF_HEADER_SIZE: usize = 64;
/// Size of an ELF64 program header.
pub const PROGRAM_HEADER_SIZE: usize = 56;

/// The 64-bit little-endian value at byte `o` of `d`.
pub open spec fn le_u64(d: Seq<u8>, o: int) -> u64 {
    spec_u64_from_le_bytes(d.subrange(o, o + 8))
}

/// The 32-bit little-endian value at byte `o` of `d`.
pub open spec fn le_u32(d: Seq<u8>, o: int) -> u32 {
    spec_u32_from_le_bytes(d.subrange(o, o + 4))
}

/// The 16-bit little-endian value at byte `o` of `d`.
pub open spec fn le_u16(d: Seq<u8>, o: int) -> u16 {
    spec_u16_from_le_bytes(d.subrange(o, o + 2))
}

fn read_u64(d: &[u8], o: usize) -> (r: u64)
    requires
        o + 8 <= d@.len(),
    ensures
        r == le_u64(d@, o as int),
{
    let len = d.len();
    assert(o + 8 <= len);
    u64_from_le_bytes(&d[o..o + 8])
}

fn read_u32(d: &[u8], o: usize) -> (r: u32)
    requires
        o + 4 <= d@.len(),
    ensures
        r == le_u32(d@, o as int),
{
    let len = d.len();
    assert(o + 4 <= len);
    u32_from_le_bytes(&d[o..o + 4])
}

fn read_u16(d: &[u8], o: usize) -> (r: u16)
    requires
        o + 2 <= d@.len(),
    ensures
        r == le_u16(d@, o as int),
{
    let len = d.len();
    assert(o + 2 <= len);
    u16_from_le_bytes(&d[o..o + 2])
}

/// ELF64 file header.
pub struct Elf64Header {
    pub ident: [u8; 16],
    pub etype: u16,
    pub machine: u16,
    pub version: u32,
    pub entry: u64,
    pub phoff: u64,
    pub shoff: u64,
    pub flags: u32,
    pub ehsize: u16,
    pub phentsize: u16,
    pub phnum: u16,
    pub shentsize: u16,
    pub shnum: u16,
    pub shstrndx: u16,
}

/// `h` holds the header laid out (little-endian, in declaration order) in the
/// first 64 bytes of `d`.
pub open spec fn header_of(d: Seq<u8>, h: Elf64Header) -> bool {
    &&& h.ident@ == d.subrange(0, 16)
    &&& h.etype == le_u16(d, 16)
    &&& h.machine == le_u16(d, 18)
    &&& h.version == le_u32(d, 20)
    &&& h.entry == le_u64(d, 24)
    &&& h.phoff == le_u64(d, 32)
    &&& h.shoff == le_u64(d, 40)
    &&& h.flags == le_u32(d, 48)
    &&& h.ehsize == le_u16(d, 52)
    &&& h.phentsize == le_u16(d, 54)
    &&& h.phnum == le_u16(d, 56)
    &&& h.shentsize == le_u16(d, 58)
    &&& h.shnum == le_u16(d, 60)
    &&& h.shstrndx == le_u16(d, 62)
}

impl Elf64Header {
    /// Reads the header from the first 64 bytes.
    pub fn from_bytes(d: &[u8]) -> (h: Self)
        requires
            d@.len() >= ELF_HEADER_SIZE,
        ensures
            header_of(d@, h),
    {
        let mut ident = [0u8; 16];
        let mut i: usize = 0;
        while i < 16
            invariant
                i <= 16,
                d@.len() >= 64,
                forall|j: int| 0 <= j < i ==> ident@[j] == d@[j],
            decreases 16 - i,
        {
            ident[i] = d[i];
            i = i + 1;
        }
        assert(ident@ =~= d@.subrange(0, 16));
        Elf64Header {
            ident,
            etype: read_u16(d, 16),
            machine: read_u16(d, 18),
            version: read_u32(d, 20),
            entry: read_u64(d, 24),
            phoff: read_u64(d, 32),
            shoff: read_u64(d, 40),
            flags: read_u32(d, 48),
            ehsize: read_u16(d, 52),
            phentsize: read_u16(d, 54),
            phnum: read_u16(d, 56),
            shentsize: read_u16(d, 58),
            shnum: read_u16(d, 60),
            shstrndx: read_u16(d, 62),
        }
    }
}

/// ELF64 program header.
pub struct Elf64ProgramHeader {
    pub ptype: u32,
    pub flags: u32,
    pub offset: u64,
    pub vaddr: u64,
    pub paddr: u64,
    pub filesz: u64,
    pub memsz: u64,
    pub align: u64,
}

/// `p` holds the program header laid out (little-endian, in declaration
/// order) in the 56 bytes of `d` from `at`.
pub open spec fn program_header_of(d: Seq<u8>, at: int, p: Elf64ProgramHeader) -> bool {
    &&& p.ptype == le_u32(d, at)
    &&& p.flags == le_u32(d, at + 4)
    &&& p.offset == le_u64(d, at + 8)
    &&& p.vaddr == le_u64(d, at + 16)
    &&& p.paddr == le_u64(d, at + 24)
    &&& p.filesz == le_u64(d, at + 32)
    &&& p.memsz == le_u64(d, at + 40)
    &&& p.align == le_u64(d, at + 48)
}

impl Elf64ProgramHeader {
    /// Reads the program header at byte `at`.
    pub fn from_bytes(d: &[u8], at: usize) -> (p: Self)
        requires
            at + PROGRAM_HEADER_SIZE <= d@.len(),
        ensures
            program_header_of(d@, at as int, p),
    {
        let len = d.len();
        assert(at + 56 <= len);
        Elf64ProgramHeader {
            ptype: read_u32(d, at),
            flags: read_u32(d, at + 4),
            offset: read_u64(d, at + 8),
            vaddr: read_u64(d, at + 16),
            paddr: read_u64(d, at + 24),
            filesz: read_u64(d, at + 32),
            memsz: read_u64(d, at + 40),
            align: read_u64(d, at + 48),
        }
    }
}

/// The result of a load.
pub struct LoadedProgram {
    /// Entry point (virtual address).
    pub entry_point: u64,
    /// Number of loadable segments.
    pub segments_loaded: usize,
}

/// Loader errors.
#[derive(Debug)]
pub enum ElfError {
    TooSmall,
    BadMagic,
    Not64Bit,
    NotExecutable,
    WrongArchitecture,
    SegmentOutOfBounds,
}

/// Where program header `i` starts: `phoff + i * phentsize`.
pub open spec fn ph_start(d: Seq<u8>, i: int) -> int {
    le_u64(d, 32) + i * le_u16(d, 54)
}

/// The walk over program headers `i..phnum`, having counted `count` loadable
/// segments so far: it stops with the count at the first header that does not
/// fit in the file (or after the last), fails at the first loadable segment
/// whose file range ends past the file, and is `None` where an end offset
/// does not fit in 64 bits.
pub open spec fn scan_headers(d: Seq<u8>, i: nat, count: nat) -> Option<Result<nat, ElfError>>
    decreases le_u16(d, 56) - i,
{
    if i >= le_u16(d, 56) {
        Some(Ok(count))
    } else {
        let a = ph_start(d, i as int);
        if a + PROGRAM_HEADER_SIZE > u64::MAX {
            None
        } else if a + PROGRAM_HEADER_SIZE > d.len() {
            Some(Ok(count))
        } else if le_u32(d, a) == 1 {
            let end = le_u64(d, a + 8) + le_u64(d, a + 32);
            if end > u64::MAX {
                None
            } else if end > d.len() {
                Some(Err(ElfError::SegmentOutOfBounds))
            } else {
                scan_headers(d, i + 1, count + 1)
            }
        } else {
            scan_headers(d, i + 1, count)
        }
    }
}

/// What loading `d` gives: `TooSmall` under 64 bytes, then `BadMagic`,
/// `Not64Bit`, `NotExecutable` and `WrongArchitecture` for a wrong magic,
/// class, file type or machine (x86_64), then the header walk; the entry point
/// comes from the header. `None` where an offset computation overflows.
pub open spec fn load_result(d: Seq<u8>) -> Option<Result<LoadedProgram, ElfError>> {
    if d.len() < ELF_HEADER_SIZE {
        Some(Err(ElfError::TooSmall))
    } else if d[0] != 0x7F || d[1] != 0x45 || d[2] != 0x4C || d[3] != 0x46 {
        Some(Err(ElfError::BadMagic))
    } else if d[4] != 2 {
        Some(Err(ElfError::Not64Bit))
    } else if le_u16(d, 16) != 2 {
        Some(Err(ElfError::NotExecutable))
    } else if le_u16(d, 18) != 62 {
        Some(Err(ElfError::WrongArchitecture))
    } else {
        match scan_headers(d, 0, 0) {
            None => None,
            Some(Err(e)) => Some(Err(e)),
            Some(Ok(n)) => Some(Ok(LoadedProgram { entry_point: le_u64(d, 24), segments_loaded: n as usize })),
        }
    }
}

proof fn lemma_scan_count_bounded(d: Seq<u8>, i: nat, count: nat)
    requires
        count <= i,
        i <= le_u16(d, 56),
        scan_headers(d, i, count) matches Some(Ok(_)),
    ensures
        scan_headers(d, i, count) matches Some(Ok(n)) && n <= le_u16(d, 56),
    decreases le_u16(d, 56) - i,
{
    if i >= le_u16(d, 56) {
    } else {
        let a = ph_start(d, i as int);
        if a + PROGRAM_HEADER_SIZE > u64::MAX {
        } else if a + PROGRAM_HEADER_SIZE > d.len() {
        } else if le_u32(d, a) == 1 {
            lemma_scan_count_bounded(d, i + 1, count + 1);
        } else {
            lemma_scan_count_bounded(d, i + 1, count);
        }
    }
}

/// A load never counts more loadable segments than the header lists
/// program headers.
pub proof fn law_segments_at_most_headers(d: Seq<u8>)
    requires
        load_result(d) matches Some(Ok(_)),
    ensures
        load_result(d) matches Some(Ok(p)) && p.segments_loaded <= le_u16(d, 56),
{
    lemma_scan_count_bounded(d, 0, 0);
}

/// The file header is that of an x86_64 ELF64 executable of at least 64 bytes.
pub open spec fn valid_header(d: Seq<u8>) -> bool {
    &&& d.len() >= ELF_HEADER_SIZE
    &&& d[0] == 0x7F && d[1] == 0x45 && d[2] == 0x4C && d[3] == 0x46
    &&& d[4] == 2
    &&& le_u16(d, 16) == 2
    &&& le_u16(d, 18) == 62
}

/// Program header `i` lies inside the file and is a loadable segment
/// (`p_type` 1).
pub open spec fn is_load_in_file(d: Seq<u8>, i: int) -> bool {
    &&& ph_start(d, i) + PROGRAM_HEADER_SIZE <= d.len()
    &&& le_u32(d, ph_start(d, i)) == 1
}

/// The file range of segment `i` ends past the file: `p_offset` (bytes
/// 8..16) plus `p_filesz` (bytes 32..40) exceeds the file length.
pub open spec fn file_range_past_end(d: Seq<u8>, i: int) -> bool {
    le_u64(d, ph_start(d, i) + 8) + le_u64(d, ph_start(d, i) + 32) > d.len()
}

proof fn lemma_scan_succeeds(d: Seq<u8>, i: nat, count: nat)
    requires
        d.len() <= u64::MAX,
        forall|k: int| 0 <= k < le_u16(d, 56) ==> #[trigger] ph_start(d, k) + PROGRAM_HEADER_SIZE <= u64::MAX,
        forall|k: int| 0 <= k < le_u16(d, 56) && #[trigger] is_load_in_file(d, k) ==> !file_range_past_end(d, k),
    ensures
        scan_headers(d, i, count) matches Some(Ok(_)),
    decreases le_u16(d, 56) - i,
{
    if i < le_u16(d, 56) {
        let a = ph_start(d, i as int);
        assert(a + PROGRAM_HEADER_SIZE <= u64::MAX);
        if a + PROGRAM_HEADER_SIZE <= d.len() && le_u32(d, a) == 1 {
            assert(is_load_in_file(d, i as int));
            assert(!file_range_past_end(d, i as int));
            assert(le_u64(d, a + 8) + le_u64(d, a + 32) <= d.len());
            lemma_scan_succeeds(d, i + 1, count + 1);
            assert(scan_headers(d, i, count) == scan_headers(d, i + 1, count + 1));
        } else if a + PROGRAM_HEADER_SIZE <= d.len() {
            lemma_scan_succeeds(d, i + 1, count);
            assert(scan_headers(d, i, count) == scan_headers(d, i + 1, count));
        }
    }
}

proof fn lemma_scan_out_of_bounds(d: Seq<u8>, i: nat, count: nat)
    requires
        scan_headers(d, i, count) == Some(Err::<nat, ElfError>(ElfError::SegmentOutOfBounds)),
    ensures
        exists|k: int| i <= k < le_u16(d, 56) && #[trigger] is_load_in_file(d, k) && file_range_past_end(d, k),
    decreases le_u16(d, 56) - i,
{
    if i < le_u16(d, 56) {
        let a = ph_start(d, i as int);
        if a + PROGRAM_HEADER_SIZE > u64::MAX {
        } else if a + PROGRAM_HEADER_SIZE > d.len() {
        } else if le_u32(d, a) == 1 {
            assert(is_load_in_file(d, i as int));
            if le_u64(d, a + 8) + le_u64(d, a + 32) > d.len() {
                assert(file_range_past_end(d, i as int));
            } else {
                lemma_scan_out_of_bounds(d, i + 1, count + 1);
            }
        } else {
            lemma_scan_out_of_bounds(d, i + 1, count);
        }
    }
}

/// A valid executable whose loadable segments each have their file bytes
/// (`p_offset + p_filesz`) inside the file loads, with the header's entry
/// point, however large their memory sizes (`p_memsz`) are; it only needs its
/// program header offsets to fit in 64 bits.
pub proof fn law_segments_in_file_load(d: Seq<u8>)
    requires
        valid_header(d),
        d.len() <= u64::MAX,
        forall|k: int| 0 <= k < le_u16(d, 56) ==> #[trigger] ph_start(d, k) + PROGRAM_HEADER_SIZE <= u64::MAX,
        forall|k: int| 0 <= k < le_u16(d, 56) && #[trigger] is_load_in_file(d, k) ==> !file_range_past_end(d, k),
    ensures
        load_result(d) matches Some(Ok(p)) && p.entry_point == le_u64(d, 24),
{
    lemma_scan_succeeds(d, 0, 0);
}

/// A load fails with `SegmentOutOfBounds` only where some loadable segment
/// inside the header table has its file bytes (`p_offset + p_filesz`)
/// ending past the file.
pub proof fn law_out_of_bounds_is_file_range(d: Seq<u8>)
    requires
        load_result(d) == Some(Err::<LoadedProgram, ElfError>(ElfError::SegmentOutOfBounds)),
    ensures
        exists|k: int| 0 <= k < le_u16(d, 56) && #[trigger] is_load_in_file(d, k) && file_range_past_end(d, k),
{
    lemma_scan_out_of_bounds(d, 0, 0);
}

/// ELF loader.
pub struct ElfLoader;

impl ElfLoader {
    /// Loads an ELF64 executable: checks the header, walks the program
    /// headers and counts the loadable segments (mapping them into memory is
    /// not done yet), and returns the entry point. The file must be one whose
    /// header offsets fit in 64 bits (`try_load` tells).
    pub fn load(elf_data: &[u8]) -> (r: Result<LoadedProgram, ElfError>)
        requires
            load_result(elf_data@) is Some,
        ensures
            load_result(elf_data@) == Some(r),
    {
        match Self::try_load(elf_data) {
            Some(r) => r,
            None => Err(ElfError::TooSmall),
        }
    }

    /// What `load` gives, where every offset computation fits in 64 bits;
    /// `None` where one does not.
    pub fn try_load(elf_data: &[u8]) -> (r: Option<Result<LoadedProgram, ElfError>>)
        ensures
            r == load_result(elf_data@),
    {
        let d = elf_data;
        if d.len() < ELF_HEADER_SIZE {
            return Some(Err(ElfError::TooSmall));
        }
        let header = Elf64Header::from_bytes(d);
        if header.ident[0] != 0x7F || header.ident[1] != 0x45 || header.ident[2] != 0x4C || header.ident[3] != 0x46 {
            return Some(Err(ElfError::BadMagic));
        }
        if header.ident[4] != 2 {
            return Some(Err(ElfError::Not64Bit));
        }
        if header.etype != 2 {
            return Some(Err(ElfError::NotExecutable));
        }
        if header.machine != 62 {
            return Some(Err(ElfError::WrongArchitecture));
        }
        let entry_point = header.entry;
        let phoff = header.phoff;
        let phentsize = header.phentsize as u64;
        let phnum = header.phnum as u64;
        let dlen = d.len();
        let len = dlen as u64;

        let mut segments_loaded: usize = 0;
        let mut i: u64 = 0;
        while i < phnum
            invariant_except_break
                i <= phnum,
                segments_loaded <= i,
                scan_headers(d@, 0, 0) == scan_headers(d@, i as nat, segments_loaded as nat),
            invariant
                phnum == le_u16(d@, 56),
                phentsize == le_u16(d@, 54),
                phoff == le_u64(d@, 32),
                len == d@.len(),
                d@ == elf_data@,
                d@.len() <= usize::MAX,
                d@.len() >= ELF_HEADER_SIZE,
                d@[0] == 0x7F && d@[1] == 0x45 && d@[2] == 0x4C && d@[3] == 0x46,
                d@[4] == 2,
                le_u16(d@, 16) == 2,
                le_u16(d@, 18) == 62,
                entry_point == le_u64(d@, 24),
            ensures
                scan_headers(d@, 0, 0) == Some(Ok::<nat, ElfError>(segments_loaded as nat)),
            decreases phnum - i,
        {
            assert(i * phentsize <= 0xFFFF * 0xFFFF) by (nonlinear_arith)
                requires i <= 0xFFFF, phentsize <= 0xFFFF;
            let ghost a = ph_start(d@, i as int);
            let step = i * phentsize;
            assert(a == phoff + step);
            if phoff > u64::MAX - 56 - step {
                return None;
            }
            let ph_addr = phoff + step;
            if ph_addr + 56 > len {
                break;
            }
            assert(ph_addr <= len);
            let at = ph_addr as usize;
            assert(at as int == a);
            let ph = Elf64ProgramHeader::from_bytes(d, at);
            assert(ph.ptype == le_u32(d@, a));
            assert(ph.offset == le_u64(d@, a + 8));
            assert(ph.filesz == le_u64(d@, a + 32));
            if ph.ptype == 1 {
                if ph.offset > u64::MAX - ph.filesz {
                    return None;
                }
                if ph.offset + ph.filesz > len {
                    assert(scan_headers(d@, i as nat, segments_loaded as nat)
                        == Some(Err::<nat, ElfError>(ElfError::SegmentOutOfBounds)));
                    return Some(Err(ElfError::SegmentOutOfBounds));
                }
                segments_loaded += 1;
            }
            i = i + 1;
        }
        proof { lemma_scan_count_bounded(d@, 0, 0); }
        Some(Ok(LoadedProgram { entry_point, segments_loaded }))
    }
}

} // verus!

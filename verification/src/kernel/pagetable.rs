//! Four-level x86_64 page tables (PML4 -> PDPT -> PD -> PT -> 4 KiB page),
//! held as a tree of nodes whose child tables sit in a vector beside the
//! entries, so no raw physical memory is touched.

use vstd::prelude::*;
use crate::kernel::memory::{JiuzhouAddress, spec_to_physical};

verus! {

/// Physical address.
pub type PhysAddr = u64;
/// Virtual address.
pub type VirtAddr = u64;

/// Size of a page.
pub const PAGE_SIZE: usize = 4096;
/// Entries per page table.
pub const PAGE_TABLE_ENTRIES: usize = 512;
/// Bits 12..52 of an entry: the physical frame address.
pub const ADDR_MASK: u64 = 0x000F_FFFF_FFFF_F000u64;

/// One page table entry: a frame address in bits 12..52 and flags in bits 0..12
/// (bit 0 present, bit 1 writable, bit 7 huge page).
#[derive(Clone, Copy)]
pub struct PageTableEntry(u64);

impl PageTableEntry {
    /// The raw 64-bit value of the entry.
    pub closed spec fn bits(self) -> u64 {
        self.0
    }

    /// Bit 0 is set.
    pub open spec fn spec_present(self) -> bool {
        self.bits() & 1u64 != 0
    }

    /// Bit 1 is set.
    pub open spec fn spec_writable(self) -> bool {
        self.bits() & 2u64 != 0
    }

    /// Bit 7 is set.
    pub open spec fn spec_huge(self) -> bool {
        self.bits() & 0x80u64 != 0
    }

    /// Bits 12..52.
    pub open spec fn spec_address(self) -> u64 {
        self.bits() & ADDR_MASK
    }

    /// The empty (non-present) entry.
    pub fn empty() -> (r: Self)
        ensures
            r.bits() == 0,
            !r.spec_present(),
    {
        assert(0u64 & 1u64 == 0) by (bit_vector);
        PageTableEntry(0)
    }

    /// Whether the entry is present.
    pub fn is_present(&self) -> (r: bool)
        ensures
            r == self.spec_present(),
    {
        self.0 & 1 != 0
    }

    /// Whether the entry allows writes.
    pub fn is_writable(&self) -> (r: bool)
        ensures
            r == self.spec_writable(),
    {
        self.0 & 2 != 0
    }

    /// Whether the entry maps a huge page.
    pub fn is_huge(&self) -> (r: bool)
        ensures
            r == self.spec_huge(),
    {
        self.0 & 0x80 != 0
    }

    /// The physical frame address held in the entry.
    pub fn address(&self) -> (r: PhysAddr)
        ensures
            r == self.spec_address(),
    {
        self.0 & ADDR_MASK
    }

    /// An entry whose address is `addr` cut to bits 12..52 and whose flags
    /// are the low 12 bits of `flags`.
    pub fn new(addr: PhysAddr, flags: u64) -> (r: Self)
        ensures
            r.bits() == (addr & ADDR_MASK) | (flags & 0xFFFu64),
            r.spec_address() == addr & ADDR_MASK,
            r.spec_present() == (flags & 1u64 != 0),
            r.spec_writable() == (flags & 2u64 != 0),
            r.spec_huge() == (flags & 0x80u64 != 0),
    {
        let v = (addr & ADDR_MASK) | (flags & 0xFFF);
        assert(v & 0x000F_FFFF_FFFF_F000u64 == addr & 0x000F_FFFF_FFFF_F000u64
            && (v & 1u64 != 0) == (flags & 1u64 != 0)
            && (v & 2u64 != 0) == (flags & 2u64 != 0)
            && (v & 0x80u64 != 0) == (flags & 0x80u64 != 0)) by (bit_vector)
            requires v == (addr & 0x000F_FFFF_FFFF_F000u64) | (flags & 0xFFFu64);
        PageTableEntry(v)
    }

    /// A present, writable entry for `addr`.
    pub fn present_writable(addr: PhysAddr) -> (r: Self)
        ensures
            r.bits() == (addr & ADDR_MASK) | 3u64,
            r.spec_address() == addr & ADDR_MASK,
            r.spec_present(),
            r.spec_writable(),
            !r.spec_huge(),
    {
        assert(3u64 & 0xFFFu64 == 3u64 && 3u64 & 1u64 != 0 && 3u64 & 2u64 != 0
            && 3u64 & 0x80u64 == 0) by (bit_vector);
        Self::new(addr, 0x003)
    }

    /// A present, read-only entry for `addr`.
    pub fn present(addr: PhysAddr) -> (r: Self)
        ensures
            r.bits() == (addr & ADDR_MASK) | 1u64,
            r.spec_address() == addr & ADDR_MASK,
            r.spec_present(),
            !r.spec_writable(),
            !r.spec_huge(),
    {
        assert(1u64 & 0xFFFu64 == 1u64 && 1u64 & 1u64 != 0 && 1u64 & 2u64 == 0
            && 1u64 & 0x80u64 == 0) by (bit_vector);
        Self::new(addr, 0x001)
    }
}

impl Default for PageTableEntry {
    fn default() -> (r: Self)
        ensures
            r.bits() == 0,
    {
        PageTableEntry(0)
    }
}

/// Index into the PML4 table: bits 39..48.
pub open spec fn pml4_index(v: u64) -> u64 {
    (v >> 39u64) & 0x1FFu64
}

/// Index into the PDPT: bits 30..39.
pub open spec fn pdpt_index(v: u64) -> u64 {
    (v >> 30u64) & 0x1FFu64
}

/// Index into the page directory: bits 21..30.
pub open spec fn pd_index(v: u64) -> u64 {
    (v >> 21u64) & 0x1FFu64
}

/// Index into the page table: bits 12..21.
pub open spec fn pt_index(v: u64) -> u64 {
    (v >> 12u64) & 0x1FFu64
}

/// The virtual page that a walk resolves: bits 12..48 of the address.
pub open spec fn page_key(v: u64) -> u64 {
    (v >> 12u64) & 0xF_FFFF_FFFFu64
}

/// The page table (last level) that a walk reaches: bits 21..48.
pub open spec fn table_key(v: u64) -> u64 {
    (v >> 21u64) & 0x7FF_FFFFu64
}

/// Two addresses resolve to the same page exactly when all four indices agree,
/// and reach the same page table exactly when the first three agree.
pub proof fn lemma_keys_are_indices(v: u64, w: u64)
    ensures
        (page_key(v) == page_key(w)) == (pml4_index(v) == pml4_index(w)
            && pdpt_index(v) == pdpt_index(w) && pd_index(v) == pd_index(w)
            && pt_index(v) == pt_index(w)),
        (table_key(v) == table_key(w)) == (pml4_index(v) == pml4_index(w)
            && pdpt_index(v) == pdpt_index(w) && pd_index(v) == pd_index(w)),
        pml4_index(v) < 512,
        pdpt_index(v) < 512,
        pd_index(v) < 512,
        pt_index(v) < 512,
{
    assert(((v >> 12u64) & 0xF_FFFF_FFFFu64 == (w >> 12u64) & 0xF_FFFF_FFFFu64) == (
        (v >> 39u64) & 0x1FFu64 == (w >> 39u64) & 0x1FFu64
        && (v >> 30u64) & 0x1FFu64 == (w >> 30u64) & 0x1FFu64
        && (v >> 21u64) & 0x1FFu64 == (w >> 21u64) & 0x1FFu64
        && (v >> 12u64) & 0x1FFu64 == (w >> 12u64) & 0x1FFu64)) by (bit_vector);
    assert(((v >> 21u64) & 0x7FF_FFFFu64 == (w >> 21u64) & 0x7FF_FFFFu64) == (
        (v >> 39u64) & 0x1FFu64 == (w >> 39u64) & 0x1FFu64
        && (v >> 30u64) & 0x1FFu64 == (w >> 30u64) & 0x1FFu64
        && (v >> 21u64) & 0x1FFu64 == (w >> 21u64) & 0x1FFu64)) by (bit_vector);
    assert((v >> 39u64) & 0x1FFu64 < 512 && (v >> 30u64) & 0x1FFu64 < 512
        && (v >> 21u64) & 0x1FFu64 < 512 && (v >> 12u64) & 0x1FFu64 < 512) by (bit_vector);
}

/// A node of the tree: 512 entries, and the child tables of the present
/// entries at the same indices.
struct PageTableNode {
    entries: [PageTableEntry; PAGE_TABLE_ENTRIES],
    children: Vec<PageTableNode>,
}

/// A node with `depth` levels of tables below it is well formed: it has 512
/// entries, and each present entry (above the last level) has a well-formed child.
spec fn node_wf(n: PageTableNode, depth: nat) -> bool
    decreases depth,
{
    &&& n.entries@.len() == 512
    &&& depth > 0 ==> forall|i: int|
        0 <= i < 512 && (#[trigger] n.entries@[i]).spec_present() ==> i < n.children@.len()
            && node_wf(n.children@[i], (depth - 1) as nat)
}

/// A node whose entries are all empty.
spec fn node_empty(n: PageTableNode) -> bool {
    &&& n.entries@.len() == 512
    &&& forall|i: int| 0 <= i < 512 ==> (#[trigger] n.entries@[i]).bits() == 0
    &&& forall|i: int| 0 <= i < 512 ==> !(#[trigger] n.entries@[i]).spec_present()
}

proof fn lemma_empty_wf(n: PageTableNode, depth: nat)
    requires
        node_empty(n),
    ensures
        node_wf(n, depth),
{
    reveal_with_fuel(node_wf, 1);
    assert forall|i: int| 0 <= i < 512 implies !(#[trigger] n.entries@[i]).spec_present() by {
        let e = n.entries@[i].bits();
        assert(e == 0);
        assert(0u64 & 1u64 == 0) by (bit_vector);
    }
}

proof fn lemma_zero_not_present()
    ensures
        !PageTableEntry(0).spec_present(),
{
    assert(0u64 & 1u64 == 0) by (bit_vector);
}

/// The path from the root to the page table of indices `a`, `b`, `c` is present.
spec fn table_at(root: PageTableNode, a: int, b: int, c: int) -> bool {
    &&& root.entries@[a].spec_present()
    &&& root.children@[a].entries@[b].spec_present()
    &&& root.children@[a].children@[b].entries@[c].spec_present()
}

/// The last-level entry at indices `a`, `b`, `c`, `d`, or the empty entry where
/// the path is missing.
spec fn leaf_at(root: PageTableNode, a: int, b: int, c: int, d: int) -> PageTableEntry {
    if table_at(root, a, b, c) {
        root.children@[a].children@[b].children@[c].entries@[d]
    } else {
        PageTableEntry(0)
    }
}

impl PageTableNode {
    fn new() -> (r: Self)
        ensures
            node_empty(r),
            r.children@.len() == 0,
    {
        let e = PageTableEntry::empty();
        let entries = [e; PAGE_TABLE_ENTRIES];
        proof {
            assert forall|j: int| 0 <= j < 512 implies !(#[trigger] entries@[j]).spec_present() by {
                assert(entries@[j] == e);
            }
        }
        PageTableNode { entries, children: Vec::new() }
    }
}

/// The raw value that `ensure_child` writes into a directory entry for a new
/// child: present, at the placeholder frame `0x1000`.
spec fn dir_entry_bits() -> u64 {
    0x1001u64
}

/// The page table manager: the root (PML4) node and a counter of `map` and
/// `unmap` operations.
pub struct PageTableManager {
    root: PageTableNode,
    map_count: usize,
}

/// The raw value of the last-level entry that `map` writes.
pub open spec fn mapped_entry_bits(paddr: u64, writable: bool) -> u64 {
    (paddr & ADDR_MASK) | (if writable { 3u64 } else { 1u64 })
}

/// `after` is `before` with the page of `vaddr` mapped to `paddr`: the
/// last-level entry of that page holds `mapped_entry_bits(paddr, writable)`,
/// every other page keeps its entry, the page table of `vaddr` now exists, and
/// the counter went up by one.
pub open spec fn map_post(before: PageTableManager, after: PageTableManager, vaddr: u64, paddr: u64, writable: bool) -> bool {
    &&& after.wf()
    &&& after.count() == before.count() + 1
    &&& forall|w: u64| (#[trigger] after.leaf_entry(w)).bits() == if page_key(w) == page_key(vaddr) {
            mapped_entry_bits(paddr, writable)
        } else {
            before.leaf_entry(w).bits()
        }
    &&& forall|w: u64| #[trigger] after.has_table(w) == (before.has_table(w) || table_key(w) == table_key(vaddr))
}

/// `after` is `before` with the page of `vaddr` unmapped: its last-level entry
/// is empty, every other page keeps its entry, the tables stay, and the
/// counter went down by one (not below zero) where the page table of `vaddr`
/// exists, else stayed.
pub open spec fn unmap_post(before: PageTableManager, after: PageTableManager, vaddr: u64) -> bool {
    &&& after.wf()
    &&& after.count() == if before.has_table(vaddr) {
            if before.count() > 0 { (before.count() - 1) as usize } else { 0 }
        } else {
            before.count()
        }
    &&& forall|w: u64| (#[trigger] after.leaf_entry(w)).bits() == if page_key(w) == page_key(vaddr) {
            0
        } else {
            before.leaf_entry(w).bits()
        }
    &&& forall|w: u64| #[trigger] after.has_table(w) == before.has_table(w)
}

impl PageTableManager {
    /// The frame that the page of `v` is mapped to: the address of its
    /// last-level entry, where that entry is present.
    pub open spec fn mapped_frame(self, v: u64) -> Option<u64> {
        if self.leaf_entry(v).spec_present() {
            Some(self.leaf_entry(v).spec_address())
        } else {
            None
        }
    }

    /// The tree is well formed four levels deep.
    pub closed spec fn wf(self) -> bool {
        node_wf(self.root, 3)
    }

    /// The walk for `v` reaches a last-level page table.
    pub closed spec fn has_table(self, v: u64) -> bool {
        table_at(self.root, pml4_index(v) as int, pdpt_index(v) as int, pd_index(v) as int)
    }

    /// The last-level entry that the walk for `v` ends in (the empty entry
    /// where the walk stops early).
    pub closed spec fn leaf_entry(self, v: u64) -> PageTableEntry {
        leaf_at(
            self.root,
            pml4_index(v) as int,
            pdpt_index(v) as int,
            pd_index(v) as int,
            pt_index(v) as int,
        )
    }

    /// The operation counter.
    pub closed spec fn count(self) -> usize {
        self.map_count
    }

    /// What `translate` gives for `v`: the frame of the last-level entry plus
    /// the offset within the page, where that entry is present.
    pub open spec fn spec_translate(self, v: u64) -> Option<u64> {
        match self.mapped_frame(v) {
            Some(frame) => Some((frame + (v & 0xFFFu64)) as u64),
            None => None,
        }
    }

    /// An empty page table.
    pub fn new() -> (r: Self)
        ensures
            r.wf(),
            r.count() == 0,
            forall|v: u64| !#[trigger] r.has_table(v),
            forall|v: u64| (#[trigger] r.leaf_entry(v)).bits() == 0,
            forall|v: u64| #[trigger] r.spec_translate(v) == None::<u64>,
    {
        let root = PageTableNode::new();
        proof {
            lemma_empty_wf(root, 3);
            assert forall|v: u64| !#[trigger] table_at(root, pml4_index(v) as int, pdpt_index(v) as int, pd_index(v) as int) by {
                lemma_keys_are_indices(v, v);
                let e = root.entries@[pml4_index(v) as int].bits();
                assert(e == 0);
                assert(0u64 & 1u64 == 0) by (bit_vector);
            }
        }
        let r = PageTableManager { root, map_count: 0 };
        proof {
            lemma_zero_not_present();
            assert forall|v: u64| #[trigger] r.spec_translate(v) == None::<u64> by {
                lemma_keys_are_indices(v, v);
                assert(!r.has_table(v));
            }
        }
        r
    }

    /// Makes sure the child table at `idx` exists, creating an empty one (and
    /// marking the entry present) where it does not, and hands it out.
    fn ensure_child(parent: &mut PageTableNode, idx: usize, Ghost(depth): Ghost<nat>) -> (child: &mut PageTableNode)
        requires
            node_wf(*old(parent), depth + 1),
            idx < 512,
        ensures
            old(parent).entries@[idx as int].spec_present() ==> final(parent).entries@ == old(parent).entries@,
            !old(parent).entries@[idx as int].spec_present() ==> final(parent).entries@.len() == 512
                && final(parent).entries@[idx as int].bits() == dir_entry_bits()
                && forall|j: int| 0 <= j < 512 && j != idx ==> final(parent).entries@[j] == old(parent).entries@[j],
            final(parent).entries@[idx as int].spec_present(),
            old(parent).entries@[idx as int].spec_present() ==> *child == old(parent).children@[idx as int],
            !old(parent).entries@[idx as int].spec_present() ==> node_empty(*child),
            node_wf(*child, depth),
            idx < final(parent).children@.len(),
            final(parent).children@[idx as int] == *final(child),
            forall|j: int| 0 <= j < 512 && j != idx && (#[trigger] old(parent).entries@[j]).spec_present()
                ==> j < final(parent).children@.len() && final(parent).children@[j] == old(parent).children@[j],
            node_wf(*final(child), depth) ==> node_wf(*final(parent), depth + 1),
    {
        if parent.entries[idx].is_present() {
            &mut parent.children[idx]
        } else {
            let child = PageTableNode::new();
            proof { lemma_empty_wf(child, depth); }
            while parent.children.len() <= idx
                invariant
                    idx < 512,
                    parent.entries@ == old(parent).entries@,
                    old(parent).children@.len() <= parent.children@.len(),
                    forall|j: int| 0 <= j < old(parent).children@.len() ==> parent.children@[j] == old(parent).children@[j],
                decreases idx + 1 - parent.children@.len(),
            {
                parent.children.push(PageTableNode::new());
            }
            parent.children.set(idx, child);
            parent.entries[idx] = PageTableEntry::present(0x1000);
            proof {
                assert((0x1000u64 & ADDR_MASK) | 1u64 == 0x1001u64) by (bit_vector);
            }
            &mut parent.children[idx]
        }
    }

    /// Maps the page of `vaddr` to the frame of `paddr`, read-only or writable,
    /// creating the missing tables on the way; gives back the frame that the
    /// page was mapped to before, if any. The counter goes up by one.
    pub fn map(&mut self, vaddr: VirtAddr, paddr: PhysAddr, writable: bool) -> (r: Result<Option<PhysAddr>, &'static str>)
        requires
            old(self).wf(),
            old(self).count() < usize::MAX,
        ensures
            map_post(*old(self), *final(self), vaddr, paddr, writable),
            r == Ok::<Option<PhysAddr>, &'static str>(old(self).mapped_frame(vaddr)),
    {
        proof { lemma_keys_are_indices(vaddr, vaddr); }
        let pml4_idx = ((vaddr >> 39) & 0x1FF) as usize;
        let pdpt_idx = ((vaddr >> 30) & 0x1FF) as usize;
        let pd_idx = ((vaddr >> 21) & 0x1FF) as usize;
        let pt_idx = ((vaddr >> 12) & 0x1FF) as usize;
        let ghost r0 = self.root;

        let node = Self::ensure_child(&mut self.root, pml4_idx, Ghost(2));
        let ghost n1 = *node;
        let node = Self::ensure_child(node, pdpt_idx, Ghost(1));
        let ghost n2 = *node;
        let node = Self::ensure_child(node, pd_idx, Ghost(0));
        let ghost n3 = *node;

        let entry = &mut node.entries[pt_idx];
        let previous = if entry.is_present() { Some(entry.address()) } else { None };
        let flags: u64 = if writable { 0x003 } else { 0x001 };
        *entry = PageTableEntry::new(paddr, flags);
        self.map_count += 1;
        proof {
            assert(flags & 0xFFFu64 == flags) by (bit_vector)
                requires flags == 3u64 || flags == 1u64;
            let a = pml4_idx as int;
            let b = pdpt_idx as int;
            let c = pd_idx as int;
            let d = pt_idx as int;
            let r1 = self.root;
            let f1 = r1.children@[a];
            let f2 = f1.children@[b];
            let f3 = f2.children@[c];
            let nb = (paddr & ADDR_MASK) | flags;
            assert(f3.entries@ == n3.entries@.update(d, PageTableEntry(nb)));
            assert(previous == if leaf_at(r0, a, b, c, d).spec_present() {
                Some(leaf_at(r0, a, b, c, d).spec_address())
            } else {
                None::<u64>
            });
            assert forall|a2: int, b2: int, c2: int, d2: int|
                0 <= a2 < 512 && 0 <= b2 < 512 && 0 <= c2 < 512 && 0 <= d2 < 512 implies
                (#[trigger] leaf_at(r1, a2, b2, c2, d2)).bits() == if a2 == a && b2 == b && c2 == c && d2 == d {
                    nb
                } else {
                    leaf_at(r0, a2, b2, c2, d2).bits()
                } by {
                if a2 != a {
                } else if b2 != b {
                    if r0.entries@[a].spec_present() {
                    } else {
                        assert(!n1.entries@[b2].spec_present());
                    }
                } else if c2 != c {
                    if table_at(r0, a, b, c2) {
                    } else if r0.entries@[a].spec_present() {
                        assert(!n2.entries@[c2].spec_present());
                    } else {
                        assert(!n1.entries@[b].spec_present());
                        assert(!n2.entries@[c2].spec_present());
                    }
                } else if d2 != d {
                    if table_at(r0, a, b, c) {
                    } else if r0.entries@[a].spec_present() && n1.entries@[b].spec_present() {
                        assert(!n3.entries@[d2].spec_present());
                    } else if r0.entries@[a].spec_present() {
                        assert(!n2.entries@[c].spec_present());
                        assert(!n3.entries@[d2].spec_present());
                    } else {
                        assert(!n1.entries@[b].spec_present());
                        assert(!n3.entries@[d2].spec_present());
                    }
                } else {
                }
            }
            assert forall|a2: int, b2: int, c2: int|
                0 <= a2 < 512 && 0 <= b2 < 512 && 0 <= c2 < 512 implies
                #[trigger] table_at(r1, a2, b2, c2) == (table_at(r0, a2, b2, c2) || (a2 == a && b2 == b && c2 == c)) by {
                if a2 != a {
                } else if b2 != b {
                    if !r0.entries@[a].spec_present() {
                        assert(!n1.entries@[b2].spec_present());
                    }
                } else if c2 != c {
                    if !r0.entries@[a].spec_present() {
                        assert(!n1.entries@[b].spec_present());
                        assert(!n2.entries@[c2].spec_present());
                    } else if !n1.entries@[b].spec_present() {
                        assert(!n2.entries@[c2].spec_present());
                    }
                }
            }
            assert forall|w: u64| (#[trigger] self.leaf_entry(w)).bits() == if page_key(w) == page_key(vaddr) {
                    nb
                } else {
                    old(self).leaf_entry(w).bits()
                } by {
                lemma_keys_are_indices(w, vaddr);
            }
            assert forall|w: u64| #[trigger] self.has_table(w) == (old(self).has_table(w) || table_key(w) == table_key(vaddr)) by {
                lemma_keys_are_indices(w, vaddr);
            }
        }
        Ok(previous)
    }

    /// Removes the mapping of the page of `vaddr`, giving back the frame it was
    /// mapped to, if any. Where the walk reaches a last-level table, the entry is
    /// cleared and the counter goes down by one (not below zero), whether or not
    /// the entry was present; where it does not, nothing changes.
    pub fn unmap(&mut self, vaddr: VirtAddr) -> (r: Result<Option<PhysAddr>, &'static str>)
        requires
            old(self).wf(),
        ensures
            unmap_post(*old(self), *final(self), vaddr),
            r == Ok::<Option<PhysAddr>, &'static str>(old(self).mapped_frame(vaddr)),
    {
        proof { lemma_keys_are_indices(vaddr, vaddr); }
        let pml4_idx = ((vaddr >> 39) & 0x1FF) as usize;
        let pdpt_idx = ((vaddr >> 30) & 0x1FF) as usize;
        let pd_idx = ((vaddr >> 21) & 0x1FF) as usize;
        let pt_idx = ((vaddr >> 12) & 0x1FF) as usize;
        let ghost r0 = self.root;
        let ghost a = pml4_idx as int;
        let ghost b = pdpt_idx as int;
        let ghost c = pd_idx as int;
        let ghost d = pt_idx as int;

        proof { lemma_zero_not_present(); }
        let top = self.root.entries[pml4_idx];
        if !top.is_present() {
            proof {
                assert forall|w: u64| (#[trigger] self.leaf_entry(w)).bits() == if page_key(w) == page_key(vaddr) {
                        0
                    } else {
                        old(self).leaf_entry(w).bits()
                    } by {
                    lemma_keys_are_indices(w, vaddr);
                }
            }
            return Ok(None);
        }
        assert(node_wf(self.root.children@[pml4_idx as int], 2));
        let node = &mut self.root.children[pml4_idx];

        let entry = node.entries[pdpt_idx];
        if !entry.is_present() {
            proof {
                assert forall|w: u64| (#[trigger] self.leaf_entry(w)).bits() == if page_key(w) == page_key(vaddr) {
                        0
                    } else {
                        old(self).leaf_entry(w).bits()
                    } by {
                    lemma_keys_are_indices(w, vaddr);
                }
            }
            proof {
                assert(self.root.children@ =~= r0.children@);
            }
            return Ok(None);
        }
        assert(node_wf(node.children@[pdpt_idx as int], 1));
        let node = &mut node.children[pdpt_idx];

        let entry = node.entries[pd_idx];
        if !entry.is_present() {
            proof {
                assert forall|w: u64| (#[trigger] self.leaf_entry(w)).bits() == if page_key(w) == page_key(vaddr) {
                        0
                    } else {
                        old(self).leaf_entry(w).bits()
                    } by {
                    lemma_keys_are_indices(w, vaddr);
                }
            }
            proof {
                let f1 = self.root.children@[pml4_idx as int];
                assert(f1.children@ =~= r0.children@[pml4_idx as int].children@);
                assert(node_wf(f1, 2));
                assert forall|w: u64| #[trigger] self.has_table(w) == old(self).has_table(w) by {
                    lemma_keys_are_indices(w, vaddr);
                    let a2 = pml4_index(w) as int;
                    if a2 == pml4_idx as int {
                        assert(f1.children@[pdpt_index(w) as int] == r0.children@[a2].children@[pdpt_index(w) as int]);
                    }
                }
            }
            return Ok(None);
        }
        assert(node_wf(node.children@[pd_idx as int], 0));
        let node = &mut node.children[pd_idx];

        let entry = &mut node.entries[pt_idx];
        let previous = if entry.is_present() { Some(entry.address()) } else { None };
        *entry = PageTableEntry::empty();
        self.map_count = self.map_count.saturating_sub(1);
        proof {
            let r1 = self.root;
            let n1 = r0.children@[a];
            let n2 = n1.children@[b];
            let n3 = n2.children@[c];
            let f1 = r1.children@[a];
            let f2 = f1.children@[b];
            let f3 = f2.children@[c];
            assert(r1.entries@ == r0.entries@);
            assert(f1.entries@ == n1.entries@);
            assert(f2.entries@ == n2.entries@);
            assert(f3.entries@ == n3.entries@.update(d, PageTableEntry(0)));
            assert(r1.children@ == r0.children@.update(a, f1));
            assert(f1.children@ == n1.children@.update(b, f2));
            assert(f2.children@ == n2.children@.update(c, f3));
            assert(node_wf(f3, 0));
            assert forall|i: int| 0 <= i < 512 && (#[trigger] f2.entries@[i]).spec_present()
                implies i < f2.children@.len() && node_wf(f2.children@[i], 0) by {
                if i != c {
                    assert(node_wf(n2.children@[i], 0));
                }
            }
            assert(node_wf(f2, 1));
            assert forall|i: int| 0 <= i < 512 && (#[trigger] f1.entries@[i]).spec_present()
                implies i < f1.children@.len() && node_wf(f1.children@[i], 1) by {
                if i != b {
                    assert(node_wf(n1.children@[i], 1));
                }
            }
            assert(node_wf(f1, 2));
            assert(node_wf(r1, 3));
            assert forall|a2: int, b2: int, c2: int, d2: int|
                0 <= a2 < 512 && 0 <= b2 < 512 && 0 <= c2 < 512 && 0 <= d2 < 512 implies
                (#[trigger] leaf_at(r1, a2, b2, c2, d2)).bits() == if a2 == a && b2 == b && c2 == c && d2 == d {
                    0
                } else {
                    leaf_at(r0, a2, b2, c2, d2).bits()
                } by {
            }
            assert forall|w: u64| (#[trigger] self.leaf_entry(w)).bits() == if page_key(w) == page_key(vaddr) {
                    0
                } else {
                    old(self).leaf_entry(w).bits()
                } by {
                lemma_keys_are_indices(w, vaddr);
            }
            assert forall|w: u64| #[trigger] self.has_table(w) == old(self).has_table(w) by {
                lemma_keys_are_indices(w, vaddr);
            }
        }
        Ok(previous)
    }

    /// Walks the four levels for `vaddr`: the frame of the present last-level
    /// entry plus the offset within the page, or `None` where an entry on the
    /// way is not present.
    pub fn translate(&self, vaddr: VirtAddr) -> (r: Option<PhysAddr>)
        requires
            self.wf(),
        ensures
            r == self.spec_translate(vaddr),
    {
        proof { lemma_keys_are_indices(vaddr, vaddr); }
        let pml4_idx = ((vaddr >> 39) & 0x1FF) as usize;
        let pdpt_idx = ((vaddr >> 30) & 0x1FF) as usize;
        let pd_idx = ((vaddr >> 21) & 0x1FF) as usize;
        let pt_idx = ((vaddr >> 12) & 0x1FF) as usize;
        let offset = vaddr & 0xFFF;

        proof { lemma_zero_not_present(); }
        let e = self.root.entries[pml4_idx];
        if !e.is_present() {
            return None;
        }
        assert(node_wf(self.root.children@[pml4_idx as int], 2));
        let n = &self.root.children[pml4_idx];

        let e = n.entries[pdpt_idx];
        if !e.is_present() {
            return None;
        }
        assert(node_wf(n.children@[pdpt_idx as int], 1));
        let n = &n.children[pdpt_idx];

        let e = n.entries[pd_idx];
        if !e.is_present() {
            return None;
        }
        assert(node_wf(n.children@[pd_idx as int], 0));
        let n = &n.children[pd_idx];

        let e = n.entries[pt_idx];
        if !e.is_present() {
            return None;
        }
        let frame = e.address();
        proof {
            let bits = e.bits();
            assert((bits & 0x000F_FFFF_FFFF_F000u64) + (vaddr & 0xFFFu64) <= u64::MAX) by (bit_vector);
        }
        Some(frame + offset)
    }

    /// Translates the physical address that the Jiuzhou address joins to.
    pub fn map_jiuzhou(&self, addr: &JiuzhouAddress) -> (r: Option<PhysAddr>)
        requires
            self.wf(),
        ensures
            r == self.spec_translate(spec_to_physical(addr.slot_id, addr.object_id, addr.offset)),
    {
        self.translate(addr.to_physical())
    }

    /// The operation counter.
    pub fn map_count(&self) -> (r: usize)
        ensures
            r == self.count(),
    {
        self.map_count
    }

}

/// The entry that `map` writes is present and holds the frame of `paddr`.
pub proof fn lemma_mapped_entry(paddr: u64, writable: bool)
    ensures
        mapped_entry_bits(paddr, writable) & 1u64 != 0,
        mapped_entry_bits(paddr, writable) & ADDR_MASK == paddr & ADDR_MASK,
{
    let f: u64 = if writable { 3u64 } else { 1u64 };
    assert(((paddr & 0x000F_FFFF_FFFF_F000u64) | f) & 1u64 != 0
        && ((paddr & 0x000F_FFFF_FFFF_F000u64) | f) & 0x000F_FFFF_FFFF_F000u64
            == paddr & 0x000F_FFFF_FFFF_F000u64) by (bit_vector)
        requires f == 3u64 || f == 1u64;
}

/// After mapping the page of `vaddr` to `paddr`, every address in that page
/// translates to the frame of `paddr` plus its offset in the page, and every
/// address of another page translates as before.
pub proof fn law_translate_after_map(
    before: PageTableManager,
    after: PageTableManager,
    vaddr: u64,
    paddr: u64,
    writable: bool,
    w: u64,
)
    requires
        map_post(before, after, vaddr, paddr, writable),
    ensures
        after.mapped_frame(vaddr) == Some(paddr & ADDR_MASK),
        after.spec_translate(w) == if page_key(w) == page_key(vaddr) {
            Some(((paddr & ADDR_MASK) + (w & 0xFFFu64)) as u64)
        } else {
            before.spec_translate(w)
        },
{
    lemma_mapped_entry(paddr, writable);
    assert(after.leaf_entry(vaddr).bits() == mapped_entry_bits(paddr, writable));
    assert(after.leaf_entry(w).bits() == if page_key(w) == page_key(vaddr) {
        mapped_entry_bits(paddr, writable)
    } else {
        before.leaf_entry(w).bits()
    });
}

/// After unmapping the page of `vaddr`, no address in that page translates,
/// and every address of another page translates as before.
pub proof fn law_translate_after_unmap(before: PageTableManager, after: PageTableManager, vaddr: u64, w: u64)
    requires
        unmap_post(before, after, vaddr),
    ensures
        after.mapped_frame(vaddr) == None::<u64>,
        after.spec_translate(w) == if page_key(w) == page_key(vaddr) {
            None
        } else {
            before.spec_translate(w)
        },
{
    lemma_zero_not_present();
    assert(after.leaf_entry(vaddr).bits() == 0);
    assert(after.leaf_entry(w).bits() == if page_key(w) == page_key(vaddr) {
        0
    } else {
        before.leaf_entry(w).bits()
    });
    assert(0u64 & 1u64 == 0) by (bit_vector);
}

/// Mapping a page and unmapping it again: the unmap hands back the frame that
/// was mapped, the counter is where it started, and the translations are
/// those before the map with that page unmapped (exactly those before the map
/// where the page was not mapped then, that is, where its start did not
/// translate).
pub proof fn law_unmap_undoes_map(
    m0: PageTableManager,
    m1: PageTableManager,
    m2: PageTableManager,
    vaddr: u64,
    paddr: u64,
    writable: bool,
    w: u64,
)
    requires
        map_post(m0, m1, vaddr, paddr, writable),
        unmap_post(m1, m2, vaddr),
    ensures
        m1.mapped_frame(vaddr) == Some(paddr & ADDR_MASK),
        m2.count() == m0.count(),
        m2.spec_translate(w) == if page_key(w) == page_key(vaddr) {
            None
        } else {
            m0.spec_translate(w)
        },
        m0.mapped_frame(vaddr) == None::<u64> ==> m2.spec_translate(w) == m0.spec_translate(w),
        m0.spec_translate(vaddr & !0xFFFu64) == None::<u64> ==> m2.spec_translate(w) == m0.spec_translate(w),
{
    law_translate_depends_on_page(m0, vaddr);
    law_translate_after_map(m0, m1, vaddr, paddr, writable, w);
    law_translate_after_unmap(m1, m2, vaddr, w);
    assert(m1.has_table(vaddr));
    if page_key(w) == page_key(vaddr) && m0.mapped_frame(vaddr) == None::<u64> {
        assert(m0.leaf_entry(w).bits() == m0.leaf_entry(vaddr).bits()) by {
            lemma_keys_are_indices(w, vaddr);
        }
    }
}

/// Number of 4 KiB pages below 2^48.
pub const NUM_PAGES: u64 = 0x10_0000_0000u64;

/// The mapped pages: the page numbers `q < 2^36` whose first address
/// `q << 12` translates.
pub open spec fn mapped_pages(m: PageTableManager) -> Set<u64> {
    Set::new(|q: u64| q < NUM_PAGES && m.spec_translate(q << 12u64) is Some)
}

/// The counter is the number of mapped pages.
pub open spec fn counts_mapped_pages(m: PageTableManager) -> bool {
    &&& mapped_pages(m).finite()
    &&& m.count() == mapped_pages(m).len()
}

/// Addresses of one page share their last-level entry.
proof fn lemma_same_page_same_leaf(m: PageTableManager, v: u64, w: u64)
    requires
        page_key(v) == page_key(w),
    ensures
        m.leaf_entry(v) == m.leaf_entry(w),
        m.mapped_frame(v) == m.mapped_frame(w),
{
    lemma_keys_are_indices(v, w);
}

/// An address, the address with the low 12 bits cleared and the address cut
/// to 48 bits all lie in one page; page `q < 2^36` starts at `q << 12`, and
/// every address lies in a page below 2^36.
proof fn lemma_page_bits(v: u64, q: u64)
    ensures
        page_key(v & !0xFFFu64) == page_key(v),
        (v & !0xFFFu64) & 0xFFFu64 == 0,
        page_key(v & 0x0000_FFFF_FFFF_FFFFu64) == page_key(v),
        (v & 0x0000_FFFF_FFFF_FFFFu64) & 0xFFFu64 == v & 0xFFFu64,
        page_key(v) < NUM_PAGES,
        q < NUM_PAGES ==> page_key(q << 12u64) == q,
{
    assert((((v & !0xFFFu64) >> 12u64) & 0xF_FFFF_FFFFu64 == (v >> 12u64) & 0xF_FFFF_FFFFu64)
        && ((v & !0xFFFu64) & 0xFFFu64 == 0)
        && (((v & 0x0000_FFFF_FFFF_FFFFu64) >> 12u64) & 0xF_FFFF_FFFFu64 == (v >> 12u64) & 0xF_FFFF_FFFFu64)
        && ((v & 0x0000_FFFF_FFFF_FFFFu64) & 0xFFFu64 == v & 0xFFFu64)
        && ((v >> 12u64) & 0xF_FFFF_FFFFu64 < 0x10_0000_0000u64)) by (bit_vector);
    assert(q < 0x10_0000_0000u64 ==> ((q << 12u64) >> 12u64) & 0xF_FFFF_FFFFu64 == q) by (bit_vector);
}

/// A walk depends only on bits 12..48 of the address, and the offset within
/// the page is added to the frame: `v` translates to what its page start
/// (`v` with the low 12 bits cleared) translates to, plus the offset; the
/// bits above 48 do not matter; and a translation keeps the offset.
pub proof fn law_translate_depends_on_page(m: PageTableManager, v: u64)
    ensures
        m.spec_translate(v) == match m.spec_translate(v & !0xFFFu64) {
            Some(b) => Some((b + (v & 0xFFFu64)) as u64),
            None => None::<u64>,
        },
        m.spec_translate(v) == m.spec_translate(v & 0x0000_FFFF_FFFF_FFFFu64),
        m.spec_translate(v) matches Some(p) ==> p & 0xFFFu64 == v & 0xFFFu64,
{
    lemma_page_bits(v, v);
    lemma_same_page_same_leaf(m, v, v & !0xFFFu64);
    lemma_same_page_same_leaf(m, v, v & 0x0000_FFFF_FFFF_FFFFu64);
    let bits = m.leaf_entry(v).bits();
    let off = v & 0xFFFu64;
    assert(((bits & 0x000F_FFFF_FFFF_F000u64) + 0u64) as u64 == bits & 0x000F_FFFF_FFFF_F000u64
        && (bits & 0x000F_FFFF_FFFF_F000u64) + off <= u64::MAX
        && (((bits & 0x000F_FFFF_FFFF_F000u64) + off) as u64) & 0xFFFu64 == off) by (bit_vector)
        requires off == v & 0xFFFu64;
}

/// A table with no entry maps no page, so its zero counter counts the
/// mapped pages.
pub proof fn law_empty_table_counts_mapped_pages(m: PageTableManager)
    requires
        m.count() == 0,
        forall|v: u64| (#[trigger] m.leaf_entry(v)).bits() == 0,
    ensures
        mapped_pages(m) == Set::<u64>::empty(),
        counts_mapped_pages(m),
{
    lemma_zero_not_present();
    assert forall|q: u64| !mapped_pages(m).contains(q) by {
        assert(m.leaf_entry(q << 12u64).bits() == 0);
        assert(0u64 & 1u64 == 0) by (bit_vector);
    }
    assert(mapped_pages(m) =~= Set::<u64>::empty());
}

/// Mapping a page whose start did not translate adds that page to the mapped
/// pages, so a counter that counted them still does.
pub proof fn law_map_counts_mapped_pages(
    before: PageTableManager,
    after: PageTableManager,
    vaddr: u64,
    paddr: u64,
    writable: bool,
)
    requires
        map_post(before, after, vaddr, paddr, writable),
        before.spec_translate(vaddr & !0xFFFu64) == None::<u64>,
        counts_mapped_pages(before),
    ensures
        mapped_pages(after) == mapped_pages(before).insert(page_key(vaddr)),
        counts_mapped_pages(after),
{
    lemma_mapped_entry(paddr, writable);
    lemma_page_bits(vaddr, page_key(vaddr));
    assert forall|q: u64| #[trigger] mapped_pages(after).contains(q)
        == mapped_pages(before).insert(page_key(vaddr)).contains(q) by {
        lemma_page_bits(vaddr, q);
        assert(after.leaf_entry(q << 12u64).bits() == if page_key(q << 12u64) == page_key(vaddr) {
            mapped_entry_bits(paddr, writable)
        } else {
            before.leaf_entry(q << 12u64).bits()
        });
    }
    assert(mapped_pages(after) =~= mapped_pages(before).insert(page_key(vaddr)));
    lemma_same_page_same_leaf(before, vaddr, vaddr & !0xFFFu64);
    lemma_same_page_same_leaf(before, vaddr, page_key(vaddr) << 12u64);
    assert(!mapped_pages(before).contains(page_key(vaddr)));
}

/// Unmapping a page whose start translates takes that page out of the
/// mapped pages, so a counter that counted them still does.
pub proof fn law_unmap_counts_mapped_pages(before: PageTableManager, after: PageTableManager, vaddr: u64)
    requires
        unmap_post(before, after, vaddr),
        before.spec_translate(vaddr & !0xFFFu64) != None::<u64>,
        counts_mapped_pages(before),
    ensures
        mapped_pages(after) == mapped_pages(before).remove(page_key(vaddr)),
        counts_mapped_pages(after),
{
    lemma_zero_not_present();
    assert(0u64 & 1u64 == 0) by (bit_vector);
    lemma_page_bits(vaddr, page_key(vaddr));
    assert forall|q: u64| #[trigger] mapped_pages(after).contains(q)
        == mapped_pages(before).remove(page_key(vaddr)).contains(q) by {
        lemma_page_bits(vaddr, q);
        assert(after.leaf_entry(q << 12u64).bits() == if page_key(q << 12u64) == page_key(vaddr) {
            0
        } else {
            before.leaf_entry(q << 12u64).bits()
        });
    }
    assert(mapped_pages(after) =~= mapped_pages(before).remove(page_key(vaddr)));
    lemma_same_page_same_leaf(before, vaddr, vaddr & !0xFFFu64);
    lemma_same_page_same_leaf(before, vaddr, page_key(vaddr) << 12u64);
    assert(mapped_pages(before).contains(page_key(vaddr)));
    assert(before.has_table(vaddr));
}

/// Mapping a page whose start did not translate and unmapping it again:
/// the unmap hands back the frame of `paddr` (what `unmap` returns is the
/// mapped frame before it), the counter is where it started, and every
/// address translates as it did before the map.
pub proof fn law_map_then_unmap_restores(
    m0: PageTableManager,
    m1: PageTableManager,
    m2: PageTableManager,
    vaddr: u64,
    paddr: u64,
    writable: bool,
)
    requires
        map_post(m0, m1, vaddr, paddr, writable),
        unmap_post(m1, m2, vaddr),
        m0.spec_translate(vaddr & !0xFFFu64) == None::<u64>,
    ensures
        m1.mapped_frame(vaddr) == Some(paddr & ADDR_MASK),
        m2.count() == m0.count(),
        forall|a: u64| #[trigger] m2.spec_translate(a) == m0.spec_translate(a),
{
    law_unmap_undoes_map(m0, m1, m2, vaddr, paddr, writable, vaddr);
    assert forall|a: u64| #[trigger] m2.spec_translate(a) == m0.spec_translate(a) by {
        law_unmap_undoes_map(m0, m1, m2, vaddr, paddr, writable, a);
    }
}

} // verus!

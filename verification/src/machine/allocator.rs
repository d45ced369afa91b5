//! Kernel heap: a bump allocator over a fixed 64 MiB region, handing out
//! aligned blocks in increasing address order and never reusing memory.

use vstd::prelude::*;
use vstd::arithmetic::power2::pow2;
use vstd::bits::{low_bits_mask, lemma_u64_low_bits_mask_is_mod, lemma_u64_pow2_no_overflow};

verus! {

/// Heap size: 64 MiB.
pub const HEAP_SIZE: u64 = 0x400_0000u64;
/// Heap start (high half).
pub const HEAP_START: u64 = 0xFFFF_8000_0000_0000u64;

/// `a` is a power of two below 2^63 (as alignments are).
pub open spec fn is_alignment(a: u64) -> bool {
    exists|k: nat| k < 63 && a == pow2(k)
}

/// The smallest multiple of `a` at or above `x`.
pub open spec fn align_up(x: int, a: int) -> int {
    ((x + a - 1) / a) * a
}

proof fn lemma_mask_is_round_down(y: u64, a: u64)
    requires
        is_alignment(a),
    ensures
        a > 0,
        y & !((a - 1) as u64) == y - y % a,
{
    let k = choose|k: nat| k < 63 && a == pow2(k);
    lemma_u64_pow2_no_overflow(k);
    let m = (a - 1) as u64;
    assert(m == low_bits_mask(k) as u64);
    lemma_u64_low_bits_mask_is_mod(y, k);
    assert(y & !m == y - (y & m)) by (bit_vector);
}

/// Bump allocator state: the next free address and the end of the heap.
pub struct BumpAllocator {
    next: u64,
    end: u64,
}

impl BumpAllocator {
    /// The next free address.
    pub closed spec fn next(self) -> u64 {
        self.next
    }

    /// The end of the heap.
    pub closed spec fn end(self) -> u64 {
        self.end
    }

    /// An allocator over the whole heap region.
    pub fn new() -> (r: Self)
        ensures
            r.next() == HEAP_START,
            r.end() == HEAP_START + HEAP_SIZE,
    {
        BumpAllocator { next: HEAP_START, end: HEAP_START + HEAP_SIZE }
    }

    /// Allocates `size` bytes aligned to `align`: the next free address rounded
    /// up to `align`, where the block ends at or before the heap end, and the
    /// next free address moves past the block; 0 (null) where it does not fit,
    /// with nothing changed.
    pub fn allocate(&mut self, size: u64, align: u64) -> (r: u64)
        requires
            is_alignment(align),
            old(self).next() + align - 1 <= u64::MAX,
            align_up(old(self).next() as int, align as int) + size <= u64::MAX,
        ensures
            final(self).end() == old(self).end(),
            align_up(old(self).next() as int, align as int) + size > old(self).end() ==> r == 0
                && final(self).next() == old(self).next(),
            align_up(old(self).next() as int, align as int) + size <= old(self).end() ==> r == align_up(
                old(self).next() as int,
                align as int,
            ) && final(self).next() == r + size,
    {
        let next = self.next;
        proof {
            lemma_mask_is_round_down((next + align - 1) as u64, align);
            let y = (next + align - 1) as int;
            let a = align as int;
            assert(y - y % a == (y / a) * a) by {
                vstd::arithmetic::div_mod::lemma_fundamental_div_mod(y, a);
                vstd::arithmetic::mul::lemma_mul_is_commutative(y / a, a);
            }
        }
        let aligned = (next + (align - 1)) & !(align - 1);
        if aligned + size > self.end {
            return 0;
        }
        self.next = aligned + size;
        aligned
    }

    /// The next free address.
    pub fn next_free(&self) -> (r: u64)
        ensures
            r == self.next(),
    {
        self.next
    }

    /// Releasing memory is not supported: nothing happens.
    pub fn dealloc(&self, addr: u64, size: u64) {
        let _ = (addr, size);
    }
}

/// A block handed out is aligned and lies at or above the free address it
/// was cut from.
pub proof fn law_allocation_aligned(next: u64, align: u64)
    requires
        is_alignment(align),
    ensures
        align_up(next as int, align as int) % (align as int) == 0,
        align_up(next as int, align as int) >= next,
        align_up(next as int, align as int) < next + align,
{
    let k = choose|k: nat| k < 63 && align == pow2(k);
    lemma_u64_pow2_no_overflow(k);
    let a = align as int;
    let x = next as int;
    vstd::arithmetic::div_mod::lemma_fundamental_div_mod(x + a - 1, a);
    vstd::arithmetic::div_mod::lemma_mod_multiples_basic((x + a - 1) / a, a);
    vstd::arithmetic::mul::lemma_mul_is_commutative((x + a - 1) / a, a);
}

/// Blocks handed out one after another do not overlap: the second starts at
/// or after the end of the first.
pub proof fn law_allocations_disjoint(next: u64, size1: u64, align1: u64, align2: u64)
    requires
        is_alignment(align1),
        is_alignment(align2),
    ensures
        align_up(align_up(next as int, align1 as int) + size1, align2 as int) >= align_up(next as int, align1 as int)
            + size1,
{
    let first_end = align_up(next as int, align1 as int) + size1;
    law_allocation_aligned(next, align1);
    let k = choose|k: nat| k < 63 && align2 == pow2(k);
    lemma_u64_pow2_no_overflow(k);
    let a = align2 as int;
    vstd::arithmetic::div_mod::lemma_fundamental_div_mod(first_end + a - 1, a);
    vstd::arithmetic::mul::lemma_mul_is_commutative((first_end + a - 1) / a, a);
}

/// Initializes the heap. The allocator state is set up statically, so there
/// is nothing to do.
pub fn init_heap() {
}

} // verus!

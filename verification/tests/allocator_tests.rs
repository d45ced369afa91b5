use bagua_os::machine::allocator::{init_heap, BumpAllocator, HEAP_SIZE, HEAP_START};

#[test]
fn test_bump_allocation_aligned_and_increasing() {
    init_heap();
    let mut a = BumpAllocator::new();
    let p1 = a.allocate(10, 8);
    assert_eq!(p1, HEAP_START);
    let p2 = a.allocate(16, 16);
    assert_eq!(p2, HEAP_START + 16);
    let p3 = a.allocate(1, 1);
    assert_eq!(p3, HEAP_START + 32);
    let p4 = a.allocate(4, 4096);
    assert_eq!(p4, HEAP_START + 4096);
    a.dealloc(p4, 4);
    assert_eq!(a.allocate(1, 1), HEAP_START + 4100);
}

#[test]
fn test_bump_allocation_exhausted() {
    let mut a = BumpAllocator::new();
    assert_eq!(a.allocate(HEAP_SIZE + 1, 1), 0);
    assert_eq!(a.allocate(HEAP_SIZE, 1), HEAP_START);
    assert_eq!(a.allocate(1, 1), 0);
}

#[test]
fn test_allocate_with_large_alignment_at_heap_start() {
    let mut heap = BumpAllocator::new();
    assert_eq!(heap.allocate(16, 1 << 47), HEAP_START);
    assert_eq!(heap.next_free(), HEAP_START + 16);
}

use perf_kernel::heap::{FixedSizeBlockAllocator, ALLOC_STEPS, HEAP_SIZE};

const BASE: usize = 0x4444_0000;

#[test]
fn new_heap_is_empty() {
    let heap = FixedSizeBlockAllocator::new(BASE);
    assert_eq!(heap.num_non_empty(), 0);
    assert_eq!(heap.num_bytes_allocated(), 0);
    assert!(heap.print_non_empty().is_empty());
    assert_eq!(heap.print_array(3), vec![None, None, None]);
}

#[test]
fn allocations_take_first_free_run() {
    let mut heap = FixedSizeBlockAllocator::new(BASE);
    assert_eq!(heap.allocate(16, 8), BASE);
    // 40 bytes round up to three slots.
    assert_eq!(heap.allocate(40, 8), BASE + ALLOC_STEPS);
    // An alignment of 64 rounds 16 bytes up to four slots.
    assert_eq!(heap.allocate(16, 64), BASE + 4 * ALLOC_STEPS);
    assert_eq!(heap.num_non_empty(), 3);
    assert_eq!(heap.num_bytes_allocated(), 1 + 3 + 4);
    assert_eq!(heap.print_non_empty(), vec![(0, 1), (1, 3), (4, 4)]);
    assert_eq!(heap.print_array(5), vec![Some(1), Some(3), None, None, Some(4)]);
}

#[test]
fn freed_block_is_reused() {
    let mut heap = FixedSizeBlockAllocator::new(BASE);
    let a = heap.allocate(16, 8);
    let b = heap.allocate(48, 8);
    let _c = heap.allocate(16, 8);
    heap.deallocate(b);
    assert_eq!(heap.num_non_empty(), 2);
    assert_eq!(heap.allocate(32, 16), BASE + ALLOC_STEPS);
    assert_eq!(a, BASE);
}

#[test]
fn free_undoes_allocate() {
    let mut heap = FixedSizeBlockAllocator::new(BASE);
    heap.allocate(100, 8);
    let before = heap.print_array(20);
    let p = heap.allocate(64, 8);
    assert_ne!(p, 0);
    heap.deallocate(p);
    assert_eq!(heap.print_array(20), before);
}

#[test]
fn oversized_request_gives_null() {
    let mut heap = FixedSizeBlockAllocator::new(BASE);
    assert_eq!(heap.allocate(HEAP_SIZE + ALLOC_STEPS, 8), 0);
    assert_eq!(heap.num_non_empty(), 0);
}

#[test]
fn realloc_same_and_smaller_keep_address() {
    let mut heap = FixedSizeBlockAllocator::new(BASE);
    let p = heap.allocate(64, 8);
    assert_eq!(heap.realloc(p, 64, 8, 60), p);
    assert_eq!(heap.print_array(1), vec![Some(4)]);
    assert_eq!(heap.realloc(p, 64, 8, 20), p);
    assert_eq!(heap.print_array(1), vec![Some(2)]);
}

#[test]
fn realloc_larger_moves_block() {
    let mut heap = FixedSizeBlockAllocator::new(BASE);
    let p = heap.allocate(16, 8);
    let _q = heap.allocate(16, 8);
    let r = heap.realloc(p, 16, 8, 32);
    // The freed slot 0 alone is too short; the block goes behind slot 1.
    assert_eq!(r, BASE + 2 * ALLOC_STEPS);
    assert_eq!(heap.print_array(4), vec![None, Some(1), Some(2), None]);
}

#[test]
fn blocks_never_overlap() {
    let mut heap = FixedSizeBlockAllocator::new(BASE);
    let a = heap.allocate(40, 8);
    let b = heap.allocate(16, 8);
    let c = heap.allocate(100, 32);
    heap.deallocate(b);
    let d = heap.allocate(16, 8);
    let e = heap.allocate(48, 8);
    let blocks = heap.print_non_empty();
    for (i, (s1, l1)) in blocks.iter().enumerate() {
        for (s2, l2) in blocks.iter().skip(i + 1) {
            assert!(s1 + *l1 as usize <= *s2 || s2 + *l2 as usize <= *s1);
        }
    }
    assert_eq!(d, b);
    assert!(a < c && e > c);
}

#[test]
fn allocation_honours_large_alignment() {
    let mut heap = FixedSizeBlockAllocator::new(0x1000);
    assert_eq!(heap.allocate(16, 16), 0x1000);
    assert_eq!(heap.allocate(32, 64), 0x1040);
    assert_eq!(heap.allocate(16, 16), 0x1010);
}

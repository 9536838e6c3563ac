use perf_kernel::svm_heap::{FixedSizeBlockAllocator, HEAP_START};

#[test]
fn svm_heap_walk_restarts_behind_block_end() {
    let mut heap = FixedSizeBlockAllocator::new();
    assert_eq!(heap.print_array(2), vec![None, None]);
    assert_eq!(heap.allocate(16, 8), HEAP_START);
    assert_eq!(heap.allocate(32, 8), HEAP_START + 16);
    // Behind the two-slot block at slot 1 the run restarts at slot 3.
    assert_eq!(heap.allocate(16, 8), HEAP_START + 48);
    assert_eq!(heap.print_array(4), vec![Some(1), Some(2), None, Some(1)]);
}

#[test]
fn svm_heap_blocks_do_not_overlap() {
    let mut heap = FixedSizeBlockAllocator::new();
    assert_eq!(heap.allocate(32, 16), HEAP_START);
    assert_eq!(heap.allocate(16, 16), HEAP_START + 32);
}

#[test]
fn svm_heap_free_and_resize() {
    let mut heap = FixedSizeBlockAllocator::new();
    let p = heap.allocate(64, 16);
    assert_eq!(p, HEAP_START);
    assert_eq!(heap.realloc(p, 64, 16, 64), p);
    assert_eq!(heap.realloc(p, 64, 16, 20), p);
    assert_eq!(heap.print_array(1), vec![Some(2)]);
    let q = heap.realloc(p, 32, 16, 80);
    assert_eq!(q, HEAP_START);
    assert_eq!(heap.print_array(1), vec![Some(5)]);
    heap.deallocate(q);
    assert_eq!(heap.print_array(1), vec![None]);
}

#[test]
fn svm_heap_blocks_stay_inside_the_heap() {
    let mut heap = FixedSizeBlockAllocator::new();
    let end = HEAP_START + 64000 * 16;
    assert_eq!(heap.allocate(100_000, 16), HEAP_START);
    for _ in 0..20 {
        let p = heap.allocate(100_000, 16);
        assert!(p == 0 || (p >= HEAP_START && p + 100_000 <= end));
    }
    // A block longer than the heap is never handed out.
    assert_eq!(heap.allocate(64000 * 16 + 16, 16), 0);
}

#[test]
fn svm_heap_honours_large_alignment() {
    let mut heap = FixedSizeBlockAllocator::new();
    assert_eq!(heap.allocate(16, 16), HEAP_START);
    let p = heap.allocate(32, 64);
    assert_eq!(p, HEAP_START + 64);
    assert_eq!(p % 64, 0);
    assert_eq!(heap.allocate(16, 16), HEAP_START + 16);
}

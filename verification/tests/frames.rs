use perf_kernel::frames::{cut_fits, BootInfoFrameAllocator};
use perf_kernel::memory_map::{FrameRange, MemoryMap, MemoryRegion, MemoryRegionType};

fn region(start: u64, end: u64, region_type: MemoryRegionType) -> MemoryRegion {
    MemoryRegion {
        range: FrameRange { start_frame_number: start, end_frame_number: end },
        region_type,
    }
}

fn map() -> MemoryMap {
    let mut m = MemoryMap::new();
    m.add_region(region(1, 9, MemoryRegionType::Usable));
    m.add_region(region(9, 16, MemoryRegionType::Reserved));
    m.add_region(region(16, 32, MemoryRegionType::Usable));
    m
}

fn collect(mut f: perf_kernel::frames::XsizeFrames) -> Vec<u64> {
    let mut v = Vec::new();
    while let Some(a) = f.next() {
        v.push(a);
    }
    v
}

#[test]
fn frames_come_in_map_order() {
    let m = map();
    assert!(cut_fits(&m, 4096, 4096));
    let mut alloc = BootInfoFrameAllocator::init(&m);
    assert_eq!(alloc.allocate_frame(), Some(0x1000));
    assert_eq!(alloc.allocate_frame(), Some(0x2000));
    for _ in 0..6 {
        alloc.allocate_frame();
    }
    // The reserved region is skipped.
    assert_eq!(alloc.allocate_frame(), Some(0x10000));
}

#[test]
fn frames_run_out() {
    let mut m = MemoryMap::new();
    m.add_region(region(4, 6, MemoryRegionType::Usable));
    let mut alloc = BootInfoFrameAllocator::new(&m);
    assert_eq!(alloc.allocate_frame(), Some(0x4000));
    assert_eq!(alloc.allocate_frame(), Some(0x5000));
    assert_eq!(alloc.allocate_frame(), None);
    assert_eq!(alloc.allocate_frame(), None);
}

#[test]
fn aligned_blocks() {
    let m = map();
    let alloc = BootInfoFrameAllocator::new(&m);
    assert!(cut_fits(&m, 0x4000, 0x8000));
    assert_eq!(collect(alloc.usable_xsize_frames(0x4000, 0x8000)), vec![0x10000, 0x14000, 0x18000, 0x1c000]);
}

#[test]
fn regions_cut_to_block_multiple() {
    let m = map();
    let alloc = BootInfoFrameAllocator::new(&m);
    assert_eq!(
        collect(alloc.usable_xsize_frames(0x3000, 0x1000)),
        vec![0x1000, 0x4000, 0x10000, 0x13000, 0x16000, 0x19000, 0x1c000]
    );
}

#[test]
fn huge_region_does_not_fit() {
    let mut m = MemoryMap::new();
    m.add_region(region(0x10_0000_0000_0000, 0x10_0000_0000_0001, MemoryRegionType::Usable));
    assert!(!cut_fits(&m, 4096, 4096));
    let mut r = MemoryMap::new();
    r.add_region(region(0x10_0000_0000_0000, 0x10_0000_0000_0001, MemoryRegionType::Reserved));
    assert!(cut_fits(&r, 4096, 4096));
}

#[test]
fn blocks_end_inside_their_region() {
    let mut m = MemoryMap::new();
    m.add_region(region(1, 5, MemoryRegionType::Usable));
    assert!(cut_fits(&m, 0x2000, 0x2000));
    let alloc = BootInfoFrameAllocator::init(&m);
    assert_eq!(collect(alloc.usable_xsize_frames(0x2000, 0x2000)), vec![0x2000]);
}

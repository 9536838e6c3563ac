use perf_kernel::memory_map::{FrameRange, MemoryMap, MemoryRegion, MemoryRegionType};
use perf_kernel::mmu::{
    huge_page_flags, identity_map_first_2mb, identity_map_gigabyte, small_page_flags, table_pointer,
    VGA_ADDR,
};
use perf_kernel::pagetable::{
    PageTable, PageTableAllocator, PageTableEntry, PageTableFlags, PageTableIndex, ENTRY_COUNT,
};
use perf_kernel::tss::TaskStateSegment;

fn region(start: u64, end: u64, region_type: MemoryRegionType) -> MemoryRegion {
    MemoryRegion {
        range: FrameRange { start_frame_number: start, end_frame_number: end },
        region_type,
    }
}

#[test]
fn flag_bits() {
    assert_eq!(PageTableFlags::present().bits(), 1);
    assert_eq!(PageTableFlags::writable().bits(), 2);
    assert_eq!(PageTableFlags::huge_page().bits(), 0x80);
    assert_eq!(PageTableFlags::no_execute().bits(), 1 << 63);
    let f = PageTableFlags::present().union(PageTableFlags::no_cache());
    assert_eq!(f.bits(), 0x11);
    assert!(f.contains(PageTableFlags::present()));
    assert!(!f.contains(PageTableFlags::writable()));
    assert_eq!(PageTableFlags::from_bits_truncate(0x1234_5678_9abc_def3).bits(), 0x1230_0000_0000_0ef3);
    assert_eq!(PageTableFlags::empty().bits(), 0);
}

#[test]
fn entry_address_and_flags() {
    let mut e = PageTableEntry::new();
    assert!(e.is_unused());
    e.set_addr(0x20_0000, PageTableFlags::present().union(PageTableFlags::huge_page()));
    assert_eq!(e.addr(), 0x20_0000);
    assert_eq!(e.flags().bits(), 0x81);
    e.set_flags(PageTableFlags::writable());
    assert_eq!(e.addr(), 0x20_0000);
    assert_eq!(e.flags().bits(), 2);
    e.set_unused();
    assert!(e.is_unused());
}

#[test]
fn table_set_get_zero() {
    let mut t = PageTable::new();
    assert_eq!(t.iter().len(), ENTRY_COUNT);
    let e = table_pointer(0x5000);
    t.set(7, e);
    assert_eq!(t.get(7).addr(), 0x5000);
    assert_eq!(t.get(7).flags().bits(), 3);
    t.iter_mut()[8] = e;
    assert_eq!(t.get(8), e);
    t.zero();
    assert!(t.iter().iter().all(|e| e.is_unused()));
}

#[test]
fn page_table_index() {
    assert_eq!(PageTableIndex::new(511).as_u16(), 511);
    assert_eq!(PageTableIndex::new_truncate(513).as_usize(), 1);
    assert_eq!(PageTableIndex::new_truncate(1024).as_u64(), 0);
    assert_eq!(PageTableIndex::new(3).as_u32(), 3);
}

#[test]
fn page_table_allocator_stops_at_end() {
    let mut a = PageTableAllocator::new(0x1000, 0x3000);
    assert_eq!(a.next(), Some(0x1000));
    assert_eq!(a.next(), Some(0x2000));
    assert_eq!(a.next(), Some(0x3000));
    assert_eq!(a.next(), None);
    assert_eq!(a.next(), None);
}

#[test]
fn tss_starts_zeroed() {
    let tss = TaskStateSegment::new();
    assert_eq!(tss.cr3, 0);
    assert_eq!(tss.iomap_base, 0);
    assert_eq!(tss.stack_pointer[2].stack_segment_selector, 0);
    assert_eq!(tss.eflags.bits, 0);
}

fn boot_map() -> MemoryMap {
    let mut map = MemoryMap::new();
    map.add_region(region(0, 0x9f, MemoryRegionType::Usable));
    map.add_region(region(0x9f, 0x100, MemoryRegionType::Reserved));
    map.add_region(region(0x100, 0x120, MemoryRegionType::Kernel));
    map.add_region(region(0x120, 0x200, MemoryRegionType::Usable));
    map.add_region(region(0x200, 0x40000, MemoryRegionType::Usable));
    map
}

#[test]
fn page_flags_follow_memory_map() {
    let map = boot_map();
    assert_eq!(small_page_flags(&map, 0x1000).bits(), 3);
    assert_eq!(small_page_flags(&map, 0xa0000).bits(), (1 << 63) | 0x11);
    assert_eq!(small_page_flags(&map, 0x100000).bits(), 1);
    assert_eq!(huge_page_flags(&map, 0x20_0000).bits(), 0x83);
    assert_eq!(huge_page_flags(&map, 0x8000_0000).bits(), 0x81 | 0x10 | (1 << 63));
}

#[test]
fn identity_maps() {
    let map = boot_map();
    let mut t = PageTable::new();
    identity_map_first_2mb(&mut t, &map);
    assert_eq!(t.get(1).addr(), 0x1000);
    assert_eq!(t.get(1).flags().bits(), 3);
    let vga = t.get((VGA_ADDR / 4096) as usize);
    assert_eq!(vga.addr(), VGA_ADDR);
    assert_eq!(vga.flags().bits(), 0x13 | (1 << 63));
    let mut g = PageTable::new();
    identity_map_gigabyte(&mut g, &map, 0);
    assert_eq!(g.get(1).addr(), 0x20_0000);
    assert_eq!(g.get(1).flags().bits(), 0x83);
    identity_map_gigabyte(&mut g, &map, 2);
    assert_eq!(g.get(0).addr(), 0x8000_0000);
    assert_eq!(g.get(0).flags().bits(), 0x91 | (1 << 63));
}

#[test]
fn every_entry_maps_its_own_page() {
    let map = boot_map();
    let mut t = PageTable::new();
    identity_map_first_2mb(&mut t, &map);
    assert!(t.get(0).is_unused());
    for k in 0..512usize {
        assert_eq!(t.get(k).addr(), k as u64 * 0x1000);
    }
    let mut g = PageTable::new();
    for gib in 0..4u64 {
        identity_map_gigabyte(&mut g, &map, gib);
        for k in 0..512usize {
            assert_eq!(g.get(k).addr(), gib * 0x4000_0000 + k as u64 * 0x20_0000);
        }
    }
}

#[test]
fn entry_reads_back_address_and_flags() {
    let mut e = PageTableEntry::new();
    assert!(e.is_unused());
    let f = PageTableFlags::present().union(PageTableFlags::no_execute());
    e.set_addr(0xabc_d000, f);
    assert_eq!(e.addr(), 0xabc_d000);
    assert_eq!(e.flags().bits(), f.bits());
    e.set_flags(PageTableFlags::writable());
    assert_eq!(e.addr(), 0xabc_d000);
    assert_eq!(e.flags().bits(), 2);
    let mut z = PageTableEntry::new();
    z.set_addr(0, PageTableFlags::empty());
    assert!(z.is_unused());
}

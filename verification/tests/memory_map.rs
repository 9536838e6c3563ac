use perf_kernel::memory_map::{
    create_from, E820MemoryRegion, FrameRange, MemoryMap, MemoryRegion, MemoryRegionType,
    PartitionError, RemoveError, MAX_MEMORY_MAP_SIZE,
};

fn region(start: u64, end: u64, region_type: MemoryRegionType) -> MemoryRegion {
    MemoryRegion {
        range: FrameRange { start_frame_number: start, end_frame_number: end },
        region_type,
    }
}

fn sample_map() -> MemoryMap {
    let mut map = MemoryMap::new();
    map.add_region(region(16, 32, MemoryRegionType::Reserved));
    map.add_region(region(1, 16, MemoryRegionType::Usable));
    map
}

#[test]
fn frame_range_new_rounds_end_up() {
    let r = FrameRange::new(0x1000, 0x3001);
    assert_eq!(r.start_frame_number, 1);
    assert_eq!(r.end_frame_number, 4);
    assert_eq!(r.size(), 0x3000);
    assert_eq!(r.start_addr(), 0x1000);
    assert_eq!(r.end_addr(), 0x4000);
    assert!(!r.is_empty());
    assert!(r.intersects(0x3fff));
    assert!(!r.intersects(0x4000));
    assert!(!r.intersects(0xfff));
}

#[test]
fn frame_range_setters() {
    let mut r = FrameRange::new(0, 0x1000);
    r.set_start_addr(0x2fff);
    r.set_end_addr(0x5000);
    assert_eq!(r.start_frame_number, 2);
    assert_eq!(r.end_frame_number, 5);
    let empty = MemoryRegion::empty();
    assert!(empty.range.is_empty());
    assert_eq!(empty.region_type, MemoryRegionType::Empty);
}

#[test]
fn e820_conversion() {
    let e = E820MemoryRegion { start_addr: 0x9fc00, len: 0x400, region_type: 2, acpi_extended_attributes: 0 };
    let r = MemoryRegion::from_e820(e);
    assert_eq!(r, region(0x9f, 0xa0, MemoryRegionType::Reserved));
    let e = E820MemoryRegion { start_addr: 0, len: 0x1000, region_type: 5, acpi_extended_attributes: 0 };
    assert_eq!(MemoryRegion::from_e820(e).region_type, MemoryRegionType::BadMemory);
}

#[test]
fn new_map_is_empty() {
    let map = MemoryMap::new();
    assert_eq!(map.next_entry_index(), 0);
    assert_eq!(map.count_regions(), 0);
    assert!(map.get_region_by_addr(0).is_none());
    assert_eq!(map.slot(MAX_MEMORY_MAP_SIZE - 1), MemoryRegion::empty());
}

#[test]
fn add_region_keeps_map_sorted() {
    let map = sample_map();
    assert_eq!(map.next_entry_index(), 2);
    assert_eq!(map.count_regions(), 2);
    assert_eq!(map.region_at(0), region(1, 16, MemoryRegionType::Usable));
    assert_eq!(map.region_at(1), region(16, 32, MemoryRegionType::Reserved));
}

#[test]
fn lookup_by_address() {
    let map = sample_map();
    assert_eq!(*map.get_region_by_addr(0x1000).unwrap(), region(1, 16, MemoryRegionType::Usable));
    // Only a usable region answers the lookup; the reserved one does not.
    assert!(map.get_region_by_addr(0x10000).is_none());
    assert!(map.get_region_by_addr(0x20000).is_none());
    assert!(map.get_region_by_addr(0xfff).is_none());
}

#[test]
fn region_containing_answers_for_any_type() {
    let map = sample_map();
    assert_eq!(*map.region_containing(0x1000).unwrap(), region(1, 16, MemoryRegionType::Usable));
    assert_eq!(*map.region_containing(0x10000).unwrap(), region(16, 32, MemoryRegionType::Reserved));
    assert!(map.region_containing(0x20000).is_none());
}

#[test]
fn adding_empty_region_changes_no_count() {
    let mut map = sample_map();
    map.add_region(MemoryRegion::empty());
    assert_eq!(map.count_regions(), 2);
    assert_eq!(map.next_entry_index(), 2);
}

#[test]
fn remove_undoes_add() {
    let mut map = sample_map();
    let extra = region(40, 48, MemoryRegionType::AcpiNvs);
    map.add_region(extra);
    assert_eq!(map.count_regions(), 3);
    assert!(map.remove_region(extra).is_ok());
    assert_eq!(map.count_regions(), 2);
    assert_eq!(map.region_at(0), region(1, 16, MemoryRegionType::Usable));
    assert_eq!(map.region_at(1), region(16, 32, MemoryRegionType::Reserved));
}

#[test]
fn remove_missing_region_fails() {
    let mut map = sample_map();
    let r = map.remove_region(region(2, 3, MemoryRegionType::Usable));
    assert!(matches!(r, Err(RemoveError::RegionDoesNotExist)));
    assert_eq!(map.count_regions(), 2);
}

#[test]
fn partition_splits_usable_region() {
    let mut map = sample_map();
    assert!(map.can_partition(0x2000, 0x4000, MemoryRegionType::Kernel));
    let parts = map.partition_memory_region(0x2000, 0x4000, MemoryRegionType::Kernel).unwrap();
    assert_eq!(parts[0], region(1, 2, MemoryRegionType::Usable));
    assert_eq!(parts[1], region(2, 4, MemoryRegionType::Kernel));
    assert_eq!(parts[2], region(4, 16, MemoryRegionType::Usable));
    assert_eq!(map.count_regions(), 4);
    assert_eq!(map.region_at(0), region(1, 2, MemoryRegionType::Usable));
    assert_eq!(map.region_at(1), region(2, 4, MemoryRegionType::Kernel));
    assert_eq!(map.region_at(2), region(4, 16, MemoryRegionType::Usable));
    assert_eq!(map.region_at(3), region(16, 32, MemoryRegionType::Reserved));
}

#[test]
fn partition_whole_region_takes_it_all() {
    let mut map = sample_map();
    let parts = map.partition_memory_region(0x1000, 0x10000, MemoryRegionType::PageTable).unwrap();
    assert_eq!(parts[0].region_type, MemoryRegionType::Empty);
    assert_eq!(parts[1], region(1, 16, MemoryRegionType::PageTable));
    assert_eq!(parts[2].region_type, MemoryRegionType::Empty);
    assert_eq!(map.count_regions(), 2);
    assert_eq!(map.region_at(0), region(1, 16, MemoryRegionType::PageTable));
}

#[test]
fn partition_errors() {
    let mut map = sample_map();
    assert!(matches!(
        map.partition_memory_region(0x2000, 0x3000, MemoryRegionType::Empty),
        Err(PartitionError::InvalidRegionType)
    ));
    assert!(matches!(
        map.partition_memory_region(0x2001, 0x3000, MemoryRegionType::Kernel),
        Err(PartitionError::AddrIsNotAligned(0x2001))
    ));
    assert!(matches!(
        map.partition_memory_region(0x2000, 0x3001, MemoryRegionType::Kernel),
        Err(PartitionError::AddrIsNotAligned(0x3001))
    ));
    assert!(matches!(
        map.partition_memory_region(0x30000, 0x31000, MemoryRegionType::Kernel),
        Err(PartitionError::AddrDoesNotExist)
    ));
    assert!(matches!(
        map.partition_memory_region(0x2000, 0x12000, MemoryRegionType::Kernel),
        Err(PartitionError::NotSameRegion(_, _))
    ));
    assert!(matches!(
        map.partition_memory_region(0x11000, 0x12000, MemoryRegionType::Kernel),
        Err(PartitionError::RegionTypeIsNotUsable(_))
    ));
    assert_eq!(map.count_regions(), 2);
}

#[test]
fn create_from_trims_overlapping_usable() {
    let entries = [
        E820MemoryRegion { start_addr: 0, len: 0x9fc00, region_type: 1, acpi_extended_attributes: 0 },
        E820MemoryRegion { start_addr: 0x9fc00, len: 0x400, region_type: 2, acpi_extended_attributes: 0 },
        E820MemoryRegion { start_addr: 0x100000, len: 0x100000, region_type: 1, acpi_extended_attributes: 0 },
    ];
    let map = create_from(&entries);
    assert_eq!(map.next_entry_index(), 3);
    assert_eq!(map.region_at(0), region(0, 0x9f, MemoryRegionType::Usable));
    assert_eq!(map.region_at(1), region(0x9f, 0xa0, MemoryRegionType::Reserved));
    assert_eq!(map.region_at(2), region(0x100, 0x200, MemoryRegionType::Usable));
}

#[test]
fn trim_and_set_region() {
    let mut map = MemoryMap::new();
    map.add_region(region(0, 10, MemoryRegionType::Usable));
    map.add_region(region(8, 12, MemoryRegionType::Reserved));
    map.set_region(1, region(5, 12, MemoryRegionType::Reserved));
    map.trim_usable_regions();
    assert_eq!(map.region_at(0), region(0, 5, MemoryRegionType::Usable));
    assert_eq!(map.region_at(1), region(5, 12, MemoryRegionType::Reserved));
    assert!(map.all_regions_fit());
}

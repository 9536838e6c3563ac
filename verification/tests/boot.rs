use perf_kernel::boot::{
    bsp_stack_pointer, check_cpu, check_image_region, check_layout, check_loaded_address,
    fill_tss_p1_table, fix_overlapping_regions, get_kernel_header, guard_page_flags,
    low_memory_part, map_tss_guard, mark_low_memory_dangerous, memory_map_from_areas, p1_index,
    p2_index, p3_index, place_core_stacks, place_tss_stacks, region_type_of, setup_core_stack,
    setup_tss_stack, BootError, CpuError, CpuFeatures, GuardSlot,
    ImageError, LayoutError, MultibootArea, MultibootAreaType, StackPlacement,
    MULTIBOOT2_BOOTLOADER_MAGIC, ONE_MEG, TWO_MEG,
};
use perf_kernel::bootinfo::{BootInfo, Core, Cores, TSS_STACKS_PER_CPU};
use perf_kernel::memory_map::{FrameRange, MemoryMap, MemoryRegion, MemoryRegionType};
use perf_kernel::pagetable::{PageTable, PageTableAllocator};

fn region(start: u64, end: u64, region_type: MemoryRegionType) -> MemoryRegion {
    MemoryRegion {
        range: FrameRange { start_frame_number: start, end_frame_number: end },
        region_type,
    }
}

fn all_features() -> CpuFeatures {
    CpuFeatures { msr: true, pae: true, apic: true, pat: true, long_mode: true, execute_disable: true }
}

#[test]
fn multiboot_types_map_to_region_types() {
    assert_eq!(region_type_of(MultibootAreaType::Available), MemoryRegionType::Usable);
    assert_eq!(region_type_of(MultibootAreaType::Reserved), MemoryRegionType::Reserved);
    assert_eq!(region_type_of(MultibootAreaType::AcpiAvailable), MemoryRegionType::AcpiReclaimable);
    assert_eq!(region_type_of(MultibootAreaType::ReservedHibernate), MemoryRegionType::AcpiNvs);
    assert_eq!(region_type_of(MultibootAreaType::Defective), MemoryRegionType::BadMemory);
}

#[test]
fn memory_map_from_multiboot_areas() {
    let areas = [
        MultibootArea { base: 0x100000, length: 0x100000, typ: MultibootAreaType::Available },
        MultibootArea { base: 0, length: 0x9fc00, typ: MultibootAreaType::Available },
        MultibootArea { base: 0xf0000, length: 0x10000, typ: MultibootAreaType::Reserved },
    ];
    let (map, ram) = memory_map_from_areas(&areas);
    assert_eq!(ram.existing_ram, 0x100000 + 0x9fc00 + 0x10000);
    assert_eq!(ram.available_ram, 0x100000 + 0x9fc00);
    assert_eq!(map.count_regions(), 3);
    assert_eq!(map.region_at(0), region(0, 0xa0, MemoryRegionType::Usable));
    assert_eq!(map.region_at(1), region(0xf0, 0x100, MemoryRegionType::Reserved));
    assert_eq!(map.region_at(2), region(0x100, 0x200, MemoryRegionType::Usable));
}

#[test]
fn usable_region_moves_behind_the_region_it_starts_in() {
    let mut map = MemoryMap::new();
    map.add_region(region(0, 0x10, MemoryRegionType::Reserved));
    map.add_region(region(0x5, 0x20, MemoryRegionType::Usable));
    map.add_region(region(0x15, 0x25, MemoryRegionType::Reserved));
    fix_overlapping_regions(&mut map);
    assert_eq!(map.region_at(0), region(0, 0x10, MemoryRegionType::Reserved));
    assert_eq!(map.region_at(1), region(0x10, 0x20, MemoryRegionType::Usable));
    // The next region is compared with the first one only, so its overlap with
    // the moved region stays.
    assert_eq!(map.region_at(2), region(0x15, 0x25, MemoryRegionType::Reserved));
}

#[test]
fn overlapping_regions_are_cut() {
    let mut map = MemoryMap::new();
    map.add_region(region(0, 0x20, MemoryRegionType::Usable));
    map.add_region(region(0x10, 0x30, MemoryRegionType::Reserved));
    fix_overlapping_regions(&mut map);
    assert_eq!(map.region_at(0).range.end_frame_number, 0x10);
    assert_eq!(map.region_at(1), region(0x10, 0x30, MemoryRegionType::Reserved));
}

#[test]
fn low_memory_parts() {
    assert_eq!(low_memory_part(0x1000, 0x9000), Some((0x1000, 0x9000)));
    assert_eq!(low_memory_part(0x1000, 0x20_0000), Some((0x1000, ONE_MEG)));
    assert_eq!(low_memory_part(ONE_MEG, 0x20_0000), None);
}

#[test]
fn low_memory_becomes_dangerous() {
    let mut map = MemoryMap::new();
    map.add_region(region(1, 0x9f, MemoryRegionType::Usable));
    map.add_region(region(0x100, 0x200, MemoryRegionType::Usable));
    assert!(mark_low_memory_dangerous(&mut map).is_ok());
    assert_eq!(map.region_at(0), region(1, 0x9f, MemoryRegionType::UsableButDangerous));
    assert_eq!(map.region_at(1), region(0x100, 0x200, MemoryRegionType::Usable));
}

#[test]
fn map_without_low_usable_memory_is_left_alone() {
    let mut map = MemoryMap::new();
    map.add_region(region(0, 0x9f, MemoryRegionType::Reserved));
    map.add_region(region(0x100, 0x200, MemoryRegionType::Usable));
    assert!(mark_low_memory_dangerous(&mut map).is_ok());
    assert_eq!(map.region_at(0), region(0, 0x9f, MemoryRegionType::Reserved));
    assert_eq!(map.region_at(1), region(0x100, 0x200, MemoryRegionType::Usable));
}

#[test]
fn straddling_region_is_split_at_one_meg() {
    let mut map = MemoryMap::new();
    map.add_region(region(0, 0x9f, MemoryRegionType::Usable));
    map.add_region(region(0x9f, 0xa0, MemoryRegionType::Reserved));
    map.add_region(region(0xf0, 0x200, MemoryRegionType::Usable));
    map.add_region(region(0x200, 0x300, MemoryRegionType::Usable));
    assert!(mark_low_memory_dangerous(&mut map).is_ok());
    assert_eq!(map.count_regions(), 5);
    assert_eq!(map.region_at(0), region(0, 0x9f, MemoryRegionType::UsableButDangerous));
    assert_eq!(map.region_at(1), region(0x9f, 0xa0, MemoryRegionType::Reserved));
    assert_eq!(map.region_at(2), region(0xf0, 0x100, MemoryRegionType::UsableButDangerous));
    assert_eq!(map.region_at(3), region(0x100, 0x200, MemoryRegionType::Usable));
    assert_eq!(map.region_at(4), region(0x200, 0x300, MemoryRegionType::Usable));
}

#[test]
fn region_ending_at_one_meg_is_left() {
    let mut map = MemoryMap::new();
    map.add_region(region(0xf0, 0x100, MemoryRegionType::Usable));
    assert!(mark_low_memory_dangerous(&mut map).is_ok());
    assert_eq!(map.region_at(0), region(0xf0, 0x100, MemoryRegionType::Usable));
}

#[test]
fn image_region_checks() {
    let mut map = MemoryMap::new();
    map.add_region(region(0x200, 0x300, MemoryRegionType::Usable));
    map.add_region(region(0x300, 0x310, MemoryRegionType::Reserved));
    assert!(check_image_region(&map, 0x200000, 0x210000).is_ok());
    assert!(matches!(check_image_region(&map, 0x200010, 0x210000), Err(ImageError::NotPageAligned(0x200010))));
    assert!(matches!(check_image_region(&map, 0x200000, 0x200000), Err(ImageError::EmptyImage)));
    assert!(matches!(check_image_region(&map, 0x2ff000, 0x301000), Err(ImageError::NotUsable(0x300000, _))));
    assert!(matches!(check_image_region(&map, 0x1ff000, 0x201000), Err(ImageError::NotInMemoryMap(0x1ff000))));
}

#[test]
fn loaded_address_checks() {
    let usable = region(0x200, 0x300, MemoryRegionType::Usable);
    let reserved = region(0x300, 0x310, MemoryRegionType::Reserved);
    assert!(check_loaded_address(&usable, 0x200000).is_ok());
    assert!(check_loaded_address(&reserved, 0x200000).is_ok());
    assert!(matches!(check_loaded_address(&reserved, 0x300000), Err(ImageError::NotUsable(0x300000, _))));
    assert!(matches!(check_loaded_address(&usable, 0x200001), Err(ImageError::NotPageAligned(0x200001))));
}

#[test]
fn layout_checks_in_order() {
    assert!(check_layout(0x10_0000, 64, 32, TWO_MEG, 0).is_ok());
    assert!(matches!(check_layout(TWO_MEG, 64, 32, TWO_MEG, 0), Err(LayoutError::BootloaderTooBig)));
    assert!(matches!(check_layout(0x10_0000, 16, 32, 0, 3), Err(LayoutError::NotEnoughRam(32))));
    assert!(matches!(check_layout(0x10_0000, 64, 32, 0x1000, 3), Err(LayoutError::KernelMisplaced(0x1000))));
    assert!(matches!(check_layout(0x10_0000, 64, 32, TWO_MEG, 3), Err(LayoutError::BspNotZero)));
}

#[test]
fn table_indices() {
    let addr: u64 = (3 << 30) | (5 << 21) | (7 << 12) | 0x123;
    assert_eq!(p3_index(addr), 3);
    assert_eq!(p2_index(addr), 5);
    assert_eq!(p1_index(addr), 7);
    assert_eq!(guard_page_flags().bits(), 0x81 | (1 << 63));
}

#[test]
fn core_stack_is_placed_and_cut_out() {
    let mut info = BootInfo::new();
    info.memory_map.add_region(region(0x800, 0x2000, MemoryRegionType::Usable));
    let p = setup_core_stack(&mut info, 0, 0x100_0000, 4).unwrap();
    assert_eq!(p, StackPlacement { guard_start: 0x100_0000, stack_end: 0x120_0000, stack_start: 0x1a0_0000 });
    assert_eq!(info.cores.num_cores(), 1);
    let core = info.cores.get(0);
    assert_eq!(core.get_apic_id(), Some(4));
    assert_eq!(core.get_stack_start(), Some(0x1a0_0000));
    assert_eq!(core.stack_end_addr, 0x120_0000);
    assert_eq!(info.memory_map.region_at(1), region(0x1000, 0x1200, MemoryRegionType::GuardPage));
    assert_eq!(info.memory_map.region_at(2), region(0x1200, 0x1a00, MemoryRegionType::KernelStack));
    let (found, idx) = info.cores.get_by_apic_id(4).unwrap();
    assert_eq!(idx, 0);
    assert_eq!(found.get_stack_start(), Some(0x1a0_0000));
    assert_eq!(bsp_stack_pointer(core), Some(0x1a0_0000 - 8));
}

#[test]
fn tss_stack_is_placed() {
    let mut info = BootInfo::new();
    info.memory_map.add_region(region(0x800, 0x2000, MemoryRegionType::Usable));
    let p = setup_tss_stack(&mut info, 0, 2, 0x100_0000).unwrap();
    assert_eq!(p.stack_end, 0x100_2000);
    assert_eq!(p.stack_start, 0x102_0000);
    let core = info.cores.get(0);
    assert_eq!(core.tss.get_stack_start(2), Some(0x102_0000));
    assert_eq!(core.tss.stack_end_addr[2], 0x100_2000);
    assert_eq!(core.tss.get_stack_start(1), None);
    assert_eq!(info.memory_map.region_at(1), region(0x1000, 0x1002, MemoryRegionType::GuardPage));
    assert_eq!(info.memory_map.region_at(2), region(0x1002, 0x1020, MemoryRegionType::TSSstack));
}

#[test]
fn stack_outside_usable_memory_fails() {
    let mut info = BootInfo::new();
    info.memory_map.add_region(region(0x800, 0x2000, MemoryRegionType::Reserved));
    assert!(setup_core_stack(&mut info, 0, 0x100_0000, 0).is_err());
}

#[test]
fn core_slots_read_back() {
    let mut core = Core::empty();
    assert_eq!(core.get_apic_id(), None);
    assert_eq!(core.get_stack_start(), None);
    assert_eq!(bsp_stack_pointer(&core), None);
    core.set_apic_id(9);
    core.set_stack_start(0x5000);
    core.set_tss_stack(TSS_STACKS_PER_CPU - 1, 0x9000, 0x8000);
    assert_eq!(core.get_apic_id(), Some(9));
    assert_eq!(core.get_stack_start(), Some(0x5000));
    assert_eq!(core.tss.get_stack_start(TSS_STACKS_PER_CPU - 1), Some(0x9000));
    let mut cores = Cores::empty();
    cores.add_found_core();
    cores.add_booted_core();
    assert_eq!(cores.num_cores(), 1);
    assert_eq!(cores.num_booted_cores, 1);
    cores.set(0, core);
    assert_eq!(cores.get_by_apic_id(9).map(|(_, i)| i), Some(0));
    assert!(cores.get_by_apic_id(8).is_none());
}

#[test]
fn tss_page_tables() {
    let mut t = PageTable::new();
    fill_tss_p1_table(&mut t, 0x40_0000);
    assert_eq!(t.get(3).addr(), 0x40_3000);
    assert_eq!(t.get(3).flags().bits(), 3);
    map_tss_guard(&mut t, 0x40_5000);
    assert_eq!(t.get(5).flags().bits(), 1 | (1 << 63));
    assert_eq!(t.get(6).addr(), 0x40_6000);
    assert_eq!(t.get(6).flags().bits(), 1 | (1 << 63));
    assert_eq!(t.get(7).flags().bits(), 3);
}

#[test]
fn kernel_header() {
    let mut image = vec![0u8; 32];
    image[..4].copy_from_slice(&[0x7f, b'E', b'L', b'F']);
    image[4] = 2;
    image[5] = 1;
    image[6] = 1;
    image[16] = 2;
    image[18] = 3;
    image[20] = 1;
    image[24..28].copy_from_slice(&0x0020_1000u32.to_le_bytes());
    let h = get_kernel_header(&image).unwrap();
    assert_eq!(h.e_entry, 0x0020_1000);
    assert_eq!(h.e_type, 2);
    assert_eq!(h.e_machine, 3);
    assert_eq!(h.e_version, 1);
    image[1] = b'X';
    let e = get_kernel_header(&image).unwrap_err();
    assert_eq!(e.e_ident[1], b'X');
}

#[test]
fn cpu_checks() {
    let intel: &[u8] = b"GenuineIntel";
    let amd: &[u8] = b"AuthenticAMD";
    let cyrix: &[u8] = b"CyrixInstead";
    assert!(check_cpu(MULTIBOOT2_BOOTLOADER_MAGIC, Some(intel), all_features()).is_ok());
    assert!(check_cpu(MULTIBOOT2_BOOTLOADER_MAGIC, Some(amd), all_features()).is_ok());
    assert!(check_cpu(MULTIBOOT2_BOOTLOADER_MAGIC, None, all_features()).is_ok());
    assert_eq!(check_cpu(1, Some(intel), all_features()), Err(CpuError::BadMagic(1)));
    assert_eq!(
        check_cpu(MULTIBOOT2_BOOTLOADER_MAGIC, Some(cyrix), all_features()),
        Err(CpuError::UnknownVendor)
    );
    let mut f = all_features();
    f.pat = false;
    assert_eq!(check_cpu(MULTIBOOT2_BOOTLOADER_MAGIC, Some(intel), f), Err(CpuError::NoPat));
    f.msr = false;
    assert_eq!(check_cpu(MULTIBOOT2_BOOTLOADER_MAGIC, Some(intel), f), Err(CpuError::NoMsr));
    let mut g = all_features();
    g.execute_disable = false;
    assert_eq!(check_cpu(MULTIBOOT2_BOOTLOADER_MAGIC, Some(intel), g), Err(CpuError::NoExecuteDisable));
    g.long_mode = false;
    assert_eq!(check_cpu(MULTIBOOT2_BOOTLOADER_MAGIC, Some(intel), g), Err(CpuError::NoLongMode));
    g.apic = false;
    assert_eq!(check_cpu(MULTIBOOT2_BOOTLOADER_MAGIC, Some(intel), g), Err(CpuError::NoApic));
    g.pae = false;
    assert_eq!(check_cpu(MULTIBOOT2_BOOTLOADER_MAGIC, Some(intel), g), Err(CpuError::NoPae));
}

#[test]
fn core_stacks_are_placed_in_order() {
    let mut info = BootInfo::new();
    info.memory_map.add_region(region(0x800, 0x4000, MemoryRegionType::Usable));
    let guards = place_core_stacks(&mut info, &[0, 2], &[0x100_0000, 0x200_0000]).unwrap();
    assert_eq!(
        guards,
        vec![
            GuardSlot { p3: 0, p2: 8, addr: 0x100_0000 },
            GuardSlot { p3: 0, p2: 16, addr: 0x200_0000 },
        ]
    );
    assert_eq!(info.cores.num_cores(), 2);
    assert_eq!(info.cores.get(0).get_apic_id(), Some(0));
    assert_eq!(info.cores.get(1).get_apic_id(), Some(2));
    assert_eq!(info.cores.get(1).get_stack_start(), Some(0x2a0_0000));
    assert_eq!(info.cores.get(1).stack_end_addr, 0x220_0000);
    assert_eq!(info.cores.get_by_apic_id(2).map(|(_, i)| i), Some(1));
}

#[test]
fn core_stack_placement_errors() {
    let mut info = BootInfo::new();
    info.memory_map.add_region(region(0x800, 0x4000, MemoryRegionType::Usable));
    assert!(matches!(place_core_stacks(&mut info, &[], &[0x100_0000]), Err(BootError::NoCores)));
    let many = vec![0u8; 257];
    assert!(matches!(place_core_stacks(&mut info, &many, &[]), Err(BootError::TooManyCores)));
    let mut info = BootInfo::new();
    info.memory_map.add_region(region(0x800, 0x4000, MemoryRegionType::Usable));
    assert!(matches!(
        place_core_stacks(&mut info, &[0, 1], &[0x100_0000]),
        Err(BootError::OutOfStackMemory)
    ));
    let mut info = BootInfo::new();
    info.memory_map.add_region(region(0x800, 0x4000, MemoryRegionType::Usable));
    assert!(matches!(
        place_core_stacks(&mut info, &[0], &[0xff80_0000]),
        Err(BootError::StackAboveFourGig(0xff80_0000))
    ));
}

#[test]
fn tss_stacks_share_a_table_per_pair_of_cores() {
    let mut info = BootInfo::new();
    info.memory_map.add_region(region(0x800, 0x4000, MemoryRegionType::Usable));
    place_core_stacks(&mut info, &[0, 1, 2], &[0x100_0000, 0x1a0_0000, 0x240_0000]).unwrap();
    let blocks: Vec<u64> = (0..24u64).map(|k| 0x300_0000 + k * 0x2_0000).collect();
    let mut p1 = PageTableAllocator::new(0x5000, 0x8000);
    let tables = place_tss_stacks(&mut info, &blocks, &mut p1).unwrap();
    assert_eq!(tables.len(), 2);
    assert_eq!(tables[0].at, 0x5000);
    assert_eq!(tables[1].at, 0x6000);
    assert_eq!((tables[0].p3, tables[0].p2), (0, 24));
    assert_eq!((tables[1].p3, tables[1].p2), (0, 25));
    let t = &tables[0].table;
    assert_eq!(t.get(0).addr(), 0x300_0000);
    assert_eq!(t.get(0).flags().bits(), 1 | (1 << 63));
    assert_eq!(t.get(1).flags().bits(), 1 | (1 << 63));
    assert_eq!(t.get(2).addr(), 0x300_2000);
    assert_eq!(t.get(2).flags().bits(), 3);
    assert_eq!(t.get(0x20).flags().bits(), 1 | (1 << 63));
    assert_eq!(t.get(0x1e0).flags().bits(), 1 | (1 << 63));
    assert_eq!(t.get(0x1ff).flags().bits(), 3);
    let core2 = info.cores.get(2);
    assert_eq!(core2.tss.get_stack_start(0), Some(0x322_0000));
    assert_eq!(core2.tss.stack_end_addr[7], 0x32e_2000);
    assert_eq!(info.cores.get(0).get_stack_start(), Some(0x1a0_0000));
    // The third core's table maps its eight stacks and nothing else is marked.
    assert_eq!(tables[1].table.get(0x100).flags().bits(), 3);
}

#[test]
fn tss_placement_errors() {
    let mut info = BootInfo::new();
    info.memory_map.add_region(region(0x800, 0x4000, MemoryRegionType::Usable));
    place_core_stacks(&mut info, &[0, 1], &[0x100_0000, 0x1a0_0000]).unwrap();
    let blocks: Vec<u64> = (0..15u64).map(|k| 0x300_0000 + k * 0x2_0000).collect();
    let mut p1 = PageTableAllocator::new(0x5000, 0x8000);
    assert!(matches!(
        place_tss_stacks(&mut info, &blocks, &mut p1),
        Err(BootError::OutOfStackMemory)
    ));
    let mut info = BootInfo::new();
    info.memory_map.add_region(region(0x800, 0x4000, MemoryRegionType::Usable));
    place_core_stacks(&mut info, &[0], &[0x100_0000]).unwrap();
    let blocks: Vec<u64> = (0..8u64).map(|k| 0x301_0000 + k * 0x2_0000).collect();
    let mut p1 = PageTableAllocator::new(0x5000, 0x8000);
    assert!(matches!(
        place_tss_stacks(&mut info, &blocks, &mut p1),
        Err(BootError::Misaligned(0x301_0000))
    ));
    let blocks: Vec<u64> = (0..8u64).map(|k| 0x300_0000 + k * 0x2_0000).collect();
    let mut p1 = PageTableAllocator::new(0x5000, 0x4000);
    assert!(matches!(
        place_tss_stacks(&mut info, &blocks, &mut p1),
        Err(BootError::OutOfPageTables)
    ));
}

//! The identity-mapped page tables the bootloader sets up for long mode: the
//! first 4 GiB in 2 MiB pages, whose permissions follow the memory map, and the
//! first 2 MiB again in 4 KiB pages.
use vstd::prelude::*;
use crate::boot::{HUGE_PAGE, NO_CACHE, NO_EXECUTE, ONE_GIG, ONE_MEG, PRESENT, TWO_MEG, WRITABLE};
use crate::memory_map::{MemoryMap, MemoryRegionType};
use crate::pagetable::{PageTable, PageTableEntry, PageTableFlags, ADDRESS_MASK, ENTRY_COUNT, FLAGS_MASK};

verus! {

/// The flags of the 2 MiB page at `addr`: writable when the map marks it usable,
/// else read-only, not executable and not cached (also when the map does not
/// know the address).  Only the page's start address is looked up.
pub open spec fn huge_page_flags_of(map: MemoryMap, addr: int) -> u64 {
    match map.lookup(addr) {
        Some(i) => if map.entries()[i].region_type == MemoryRegionType::Usable {
            PRESENT | WRITABLE | HUGE_PAGE
        } else {
            PRESENT | HUGE_PAGE | NO_EXECUTE | NO_CACHE
        },
        None => PRESENT | HUGE_PAGE | NO_EXECUTE | NO_CACHE,
    }
}

/// The flags of the 4 KiB page at `addr` in the first 2 MiB: writable for usable
/// memory and the trampoline, read-only for the kernel and the bootloader, else
/// read-only and not executable, and not cached below 1 MiB or where the map does
/// not know the address.
pub open spec fn small_page_flags_of(map: MemoryMap, addr: int) -> u64 {
    match map.lookup(addr) {
        Some(i) => {
            let t = map.entries()[i].region_type;
            if t == MemoryRegionType::Usable || t == MemoryRegionType::SmpTrampoline {
                PRESENT | WRITABLE
            } else if t == MemoryRegionType::Kernel || t == MemoryRegionType::Bootloader {
                PRESENT
            } else if addr < ONE_MEG {
                PRESENT | NO_EXECUTE | NO_CACHE
            } else {
                PRESENT | NO_EXECUTE
            }
        },
        None => PRESENT | NO_EXECUTE | NO_CACHE,
    }
}

/// The address of the VGA text buffer.
pub const VGA_ADDR: u64 = 0xb8000;

/// The flags of the VGA text buffer's page: writable, not cached, not executable.
pub open spec fn vga_flags() -> u64 {
    PRESENT | WRITABLE | NO_CACHE | NO_EXECUTE
}

/// Whether the map puts `addr` in a region of type `t`.
pub open spec fn in_region_of_type(map: MemoryMap, addr: int, t: MemoryRegionType) -> bool {
    map.lookup(addr) matches Some(i) && map.entries()[i].region_type == t
}

/// The permissions of a 2 MiB page follow the memory map: the page is present
/// and huge; it is writable exactly when its start lies in usable memory, and
/// every other page (reserved, ACPI, kernel, unknown, ...) is not executable and
/// not cached, while a usable page is both.
pub proof fn lemma_huge_page_permissions(map: MemoryMap, addr: int)
    ensures
        ({
            let f = huge_page_flags_of(map, addr);
            let usable = in_region_of_type(map, addr, MemoryRegionType::Usable);
            &&& f & PRESENT != 0
            &&& f & HUGE_PAGE != 0
            &&& (f & WRITABLE != 0 <==> usable)
            &&& !usable ==> f & NO_EXECUTE != 0 && f & NO_CACHE != 0
            &&& usable ==> f & NO_EXECUTE == 0 && f & NO_CACHE == 0
        }),
{
    let w: u64 = 1u64 | 2u64 | 128u64;
    let r: u64 = 1u64 | 128u64 | 0x8000_0000_0000_0000u64 | 16u64;
    assert(w & 1 != 0 && w & 128 != 0 && w & 2 != 0 && w & 0x8000_0000_0000_0000 == 0 && w & 16 == 0)
        by (bit_vector)
        requires
            w == 1u64 | 2u64 | 128u64,
    ;
    assert(r & 1 != 0 && r & 128 != 0 && r & 2 == 0 && r & 0x8000_0000_0000_0000 != 0 && r & 16 != 0)
        by (bit_vector)
        requires
            r == 1u64 | 128u64 | 0x8000_0000_0000_0000u64 | 16u64,
    ;
}

/// The permissions of a 4 KiB page in the first 2 MiB follow the memory map:
/// usable memory and the start-up trampoline are writable and executable, the
/// kernel and the bootloader are executable but read-only, everything else is
/// read-only and not executable, and below 1 MiB (or where the map does not
/// know the address) it is not cached either.  Every page is present.
pub proof fn lemma_small_page_permissions(map: MemoryMap, addr: int)
    ensures
        ({
            let f = small_page_flags_of(map, addr);
            let writable = in_region_of_type(map, addr, MemoryRegionType::Usable) || in_region_of_type(
                map,
                addr,
                MemoryRegionType::SmpTrampoline,
            );
            let code = in_region_of_type(map, addr, MemoryRegionType::Kernel) || in_region_of_type(
                map,
                addr,
                MemoryRegionType::Bootloader,
            );
            &&& f & PRESENT != 0
            &&& (f & WRITABLE != 0 <==> writable)
            &&& (f & NO_EXECUTE == 0 <==> writable || code)
            &&& (writable || code) ==> f & NO_CACHE == 0
            &&& !(writable || code) && (addr < 0x10_0000 || map.lookup(addr) is None) ==> f & NO_CACHE != 0
        }),
{
    let a: u64 = 1u64 | 2u64;
    let b: u64 = 1u64;
    let c: u64 = 1u64 | 0x8000_0000_0000_0000u64 | 16u64;
    let d: u64 = 1u64 | 0x8000_0000_0000_0000u64;
    assert(a & 1 != 0 && a & 2 != 0 && a & 0x8000_0000_0000_0000 == 0 && a & 16 == 0) by (bit_vector)
        requires
            a == 1u64 | 2u64,
    ;
    assert(b & 1 != 0 && b & 2 == 0 && b & 0x8000_0000_0000_0000 == 0 && b & 16 == 0) by (bit_vector)
        requires
            b == 1u64,
    ;
    assert(c & 1 != 0 && c & 2 == 0 && c & 0x8000_0000_0000_0000 != 0 && c & 16 != 0) by (bit_vector)
        requires
            c == 1u64 | 0x8000_0000_0000_0000u64 | 16u64,
    ;
    assert(d & 1 != 0 && d & 2 == 0 && d & 0x8000_0000_0000_0000 != 0) by (bit_vector)
        requires
            d == 1u64 | 0x8000_0000_0000_0000u64,
    ;
}

/// Returns the flags of the 2 MiB page at `addr`.
pub fn huge_page_flags(map: &MemoryMap, addr: u64) -> (r: PageTableFlags)
    requires
        map.wf(),
        map.all_fit(),
    ensures
        r.value() == huge_page_flags_of(*map, addr as int),
        r.value() & WRITABLE != 0 <==> in_region_of_type(*map, addr as int, MemoryRegionType::Usable),
        !in_region_of_type(*map, addr as int, MemoryRegionType::Usable) ==> r.value() & NO_EXECUTE != 0
            && r.value() & NO_CACHE != 0,
{
    proof {
        map.lemma_all_fit_lookup(addr as int);
        lemma_huge_page_permissions(*map, addr as int);
    }
    match map.region_containing(addr) {
        Some(region) => {
            if region.region_type == MemoryRegionType::Usable {
                PageTableFlags::present().union(PageTableFlags::writable()).union(
                    PageTableFlags::huge_page(),
                )
            } else {
                PageTableFlags::present().union(PageTableFlags::huge_page()).union(
                    PageTableFlags::no_execute(),
                ).union(PageTableFlags::no_cache())
            }
        },
        None => PageTableFlags::present().union(PageTableFlags::huge_page()).union(
            PageTableFlags::no_execute(),
        ).union(PageTableFlags::no_cache()),
    }
}

/// Returns the flags of the 4 KiB page at `addr` in the first 2 MiB.
pub fn small_page_flags(map: &MemoryMap, addr: u64) -> (r: PageTableFlags)
    requires
        map.wf(),
        map.all_fit(),
    ensures
        r.value() == small_page_flags_of(*map, addr as int),
{
    proof {
        map.lemma_all_fit_lookup(addr as int);
    }
    match map.region_containing(addr) {
        Some(region) => {
            let t = region.region_type;
            if t == MemoryRegionType::Usable || t == MemoryRegionType::SmpTrampoline {
                PageTableFlags::present().union(PageTableFlags::writable())
            } else if t == MemoryRegionType::Kernel || t == MemoryRegionType::Bootloader {
                PageTableFlags::present()
            } else if addr < ONE_MEG {
                PageTableFlags::present().union(PageTableFlags::no_execute()).union(
                    PageTableFlags::no_cache(),
                )
            } else {
                PageTableFlags::present().union(PageTableFlags::no_execute())
            }
        },
        None => PageTableFlags::present().union(PageTableFlags::no_execute()).union(
            PageTableFlags::no_cache(),
        ),
    }
}

/// Fills the second-level table of GiB `gib` (below 4): entry `k` maps the 2 MiB
/// page at `gib` GiB plus `k` times 2 MiB to itself, with the flags the memory map
/// gives it.
pub fn identity_map_gigabyte(table: &mut PageTable, map: &MemoryMap, gib: u64)
    requires
        old(table).wf(),
        map.wf(),
        map.all_fit(),
        gib < 4,
    ensures
        final(table).wf(),
        forall|k: int|
            0 <= k < ENTRY_COUNT ==> (#[trigger] final(table)@[k]).value() == ((gib * ONE_GIG + k
                * TWO_MEG) as u64 | huge_page_flags_of(*map, gib * ONE_GIG + k * TWO_MEG)),
        forall|k: int|
            0 <= k < ENTRY_COUNT ==> (#[trigger] final(table)@[k]).value() & ADDRESS_MASK == gib * ONE_GIG
                + k * TWO_MEG,
{
    table.zero();
    let mut k: usize = 0;
    while k < ENTRY_COUNT
        invariant
            table.wf(),
            map.wf(),
            map.all_fit(),
            gib < 4,
            k <= ENTRY_COUNT,
            forall|j: int|
                0 <= j < k ==> (#[trigger] table@[j]).value() == ((gib * ONE_GIG + j * TWO_MEG) as u64
                    | huge_page_flags_of(*map, gib * ONE_GIG + j * TWO_MEG)),
        decreases ENTRY_COUNT - k,
    {
        let addr = gib * ONE_GIG + k as u64 * TWO_MEG;
        assert(addr % 4096 == 0);
        let flags = huge_page_flags(map, addr);
        let mut entry = PageTableEntry::new();
        entry.set_addr(addr, flags);
        table.set(k, entry);
        k = k + 1;
    }
    assert forall|k: int| 0 <= k < ENTRY_COUNT implies (#[trigger] table@[k]).value() & ADDRESS_MASK == gib
        * ONE_GIG + k * TWO_MEG by {
        let a = gib * ONE_GIG + k * TWO_MEG;
        lemma_table_flags_outside_address(*map, a);
        assert(a % 4096 == 0 && a < 0x10_0000_0000_0000);
        lemma_identity_entry(a as u64, huge_page_flags_of(*map, a));
    }
}

/// Fills the first-level table of the first 2 MiB: frame zero is left unmapped,
/// every other entry `k` maps the 4 KiB page at `k` times 4 KiB to itself with
/// the flags the memory map gives it, except the VGA text buffer's page, which
/// is writable.
pub fn identity_map_first_2mb(table: &mut PageTable, map: &MemoryMap)
    requires
        old(table).wf(),
        map.wf(),
        map.all_fit(),
    ensures
        final(table).wf(),
        final(table)@[0].value() == 0,
        forall|k: int|
            0 < k < ENTRY_COUNT && k != VGA_ADDR / 4096 ==> (#[trigger] final(table)@[k]).value() == ((k
                * 4096) as u64 | small_page_flags_of(*map, k * 4096)),
        final(table)@[(VGA_ADDR / 4096) as int].value() == VGA_ADDR | vga_flags(),
        forall|k: int| 0 <= k < ENTRY_COUNT ==> (#[trigger] final(table)@[k]).value() & ADDRESS_MASK == k * 4096,
{
    table.zero();
    let mut k: usize = 1;
    while k < ENTRY_COUNT
        invariant
            table.wf(),
            map.wf(),
            map.all_fit(),
            1 <= k <= ENTRY_COUNT,
            table@[0].value() == 0,
            forall|j: int|
                0 < j < k ==> (#[trigger] table@[j]).value() == ((j * 4096) as u64 | small_page_flags_of(
                    *map,
                    j * 4096,
                )),
        decreases ENTRY_COUNT - k,
    {
        let addr = k as u64 * 4096;
        let flags = small_page_flags(map, addr);
        let mut entry = PageTableEntry::new();
        entry.set_addr(addr, flags);
        table.set(k, entry);
        k = k + 1;
    }
    let vga = PageTableFlags::present().union(PageTableFlags::writable()).union(
        PageTableFlags::no_cache(),
    ).union(PageTableFlags::no_execute());
    let mut entry = PageTableEntry::new();
    entry.set_addr(VGA_ADDR, vga);
    table.set((VGA_ADDR / 4096) as usize, entry);
    assert forall|k: int| 0 <= k < ENTRY_COUNT implies (#[trigger] table@[k]).value() & ADDRESS_MASK == k
        * 4096 by {
        lemma_table_flags_outside_address(*map, k * 4096);
        if k == VGA_ADDR / 4096 {
            lemma_identity_entry(VGA_ADDR, vga_flags());
        } else if k == 0 {
            assert(0u64 & ADDRESS_MASK == 0) by (bit_vector);
        } else {
            lemma_identity_entry((k * 4096) as u64, small_page_flags_of(*map, k * 4096));
        }
    }
}

/// The flags these tables give a page leave the address bits of an entry free.
proof fn lemma_table_flags_outside_address(map: MemoryMap, addr: int)
    ensures
        huge_page_flags_of(map, addr) & ADDRESS_MASK == 0,
        small_page_flags_of(map, addr) & ADDRESS_MASK == 0,
        vga_flags() & ADDRESS_MASK == 0,
{
    assert({
        &&& (PRESENT | WRITABLE | HUGE_PAGE) & ADDRESS_MASK == 0
        &&& (PRESENT | HUGE_PAGE | NO_EXECUTE | NO_CACHE) & ADDRESS_MASK == 0
        &&& (PRESENT | WRITABLE) & ADDRESS_MASK == 0
        &&& PRESENT & ADDRESS_MASK == 0
        &&& (PRESENT | NO_EXECUTE | NO_CACHE) & ADDRESS_MASK == 0
        &&& (PRESENT | NO_EXECUTE) & ADDRESS_MASK == 0
        &&& (PRESENT | WRITABLE | NO_CACHE | NO_EXECUTE) & ADDRESS_MASK == 0
    }) by (bit_vector);
}

/// An entry made of a page address below 2^52 and flags outside the address
/// bits points back to that address and carries exactly those flags: the
/// tables map each page onto itself.
pub proof fn lemma_identity_entry(addr: u64, flags: u64)
    requires
        addr % 4096 == 0,
        addr < 0x10_0000_0000_0000,
        flags & ADDRESS_MASK == 0,
    ensures
        (addr | flags) & ADDRESS_MASK == addr,
        (addr | flags) & FLAGS_MASK == flags,
{
    assert((addr | flags) & ADDRESS_MASK == addr && (addr | flags) & FLAGS_MASK == flags) by (bit_vector)
        requires
            addr % 4096 == 0,
            addr < 0x10_0000_0000_0000,
            flags & ADDRESS_MASK == 0,
    ;
}

/// The entry that points to a lower-level table at `addr`: present and writable.
pub fn table_pointer(addr: u64) -> (r: PageTableEntry)
    requires
        addr % 4096 == 0,
    ensures
        r.value() == addr | (PRESENT | WRITABLE),
{
    let mut entry = PageTableEntry::new();
    entry.set_addr(addr, PageTableFlags::present().union(PageTableFlags::writable()));
    entry
}

} // verus!

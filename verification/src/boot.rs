//! The decisions the bootloader takes before it jumps to the kernel: the memory
//! map it builds from the multiboot memory areas, the repair of overlapping
//! regions, the checks on where the loaded image lies, and the checks on the
//! machine it runs on.  The bootloader's entry reads the hardware and the boot
//! structures and hands their contents to these functions.
use vstd::prelude::*;
use vstd::multiset::Multiset;
use crate::bootinfo::{BootInfo, Core, MAX_CORES, TSS_STACKS_PER_CPU};
use crate::bytes::{le_u16, le_u32, read_u16, read_u32};
use crate::pagetable::{PageTable, PageTableAllocator, PageTableEntry, PageTableFlags, ENTRY_COUNT, PAGE_TABLE_SIZE};
use crate::memory_map::{
    addrs_fit, count_nonempty, end_of, frames_region, lemma_count_nonempty_multiset, lemma_count_take,
    lemma_lookup_from, lookup_from, empty_region, partition_parts, add_part, abs_diff, range_empty,
    nonempty_regions, partitioned, range_contains, start_of, usable_type, e820_type, PartitionError, FrameRange, MemoryMap,
    MemoryRegion,
    MemoryRegionType, MAX_MEMORY_MAP_SIZE, PAGE_SIZE,
};

verus! {

/// One MiB.
pub const ONE_MEG: u64 = 0x10_0000;

/// Two MiB, the size of a huge page.
pub const TWO_MEG: u64 = 0x20_0000;

/// One GiB.
pub const ONE_GIG: u64 = 0x4000_0000;

/// The type of a memory area as the multiboot2 information reports it.
#[derive(Debug, Clone, Copy, PartialEq, Eq, Structural)]
pub enum MultibootAreaType {
    Reserved,
    Available,
    AcpiAvailable,
    ReservedHibernate,
    Defective,
}

/// A memory area of the multiboot2 memory map: `length` bytes from `base`.
#[derive(Debug, Clone, Copy, PartialEq, Eq, Structural)]
pub struct MultibootArea {
    pub base: u64,
    pub length: u64,
    pub typ: MultibootAreaType,
}

/// The region type a multiboot area type becomes.
pub open spec fn area_region_type(t: MultibootAreaType) -> MemoryRegionType {
    match t {
        MultibootAreaType::Reserved => MemoryRegionType::Reserved,
        MultibootAreaType::Available => MemoryRegionType::Usable,
        MultibootAreaType::AcpiAvailable => MemoryRegionType::AcpiReclaimable,
        MultibootAreaType::ReservedHibernate => MemoryRegionType::AcpiNvs,
        MultibootAreaType::Defective => MemoryRegionType::BadMemory,
    }
}

/// The region a multiboot area becomes: the frames from its start address up to
/// its end address, with the matching type.
pub open spec fn area_region(a: MultibootArea) -> MemoryRegion {
    MemoryRegion {
        range: FrameRange {
            start_frame_number: a.base / PAGE_SIZE,
            end_frame_number: ((a.base + a.length - 1) / PAGE_SIZE as int + 1) as u64,
        },
        region_type: area_region_type(a.typ),
    }
}

/// Whether the end address of an area is a positive 64-bit number.
pub open spec fn area_ok(a: MultibootArea) -> bool {
    1 <= a.base + a.length <= u64::MAX
}

/// The total size in bytes of the areas.
pub open spec fn total_size(s: Seq<MultibootArea>) -> int
    decreases s.len(),
{
    if s.len() == 0 {
        0
    } else {
        total_size(s.drop_last()) + s.last().length
    }
}

/// The total size in bytes of the areas marked available.
pub open spec fn available_size(s: Seq<MultibootArea>) -> int
    decreases s.len(),
{
    if s.len() == 0 {
        0
    } else {
        available_size(s.drop_last()) + if s.last().typ == MultibootAreaType::Available {
            s.last().length as int
        } else {
            0
        }
    }
}

/// The memory the machine has and the memory marked available, in bytes.
#[derive(Debug, Clone, Copy, PartialEq, Eq, Structural)]
pub struct RamSummary {
    pub existing_ram: u64,
    pub available_ram: u64,
}

/// The region of a multiboot area covers the area's bytes and at most one page
/// more on either side: it starts at the page holding the area's first byte and
/// ends at the first page boundary after its last byte.
pub proof fn lemma_area_region_covers(a: MultibootArea)
    requires
        area_ok(a),
    ensures
        area_region(a).range.start_frame_number * 4096 <= a.base < area_region(a).range.start_frame_number
            * 4096 + 4096,
        a.base + a.length <= area_region(a).range.end_frame_number * 4096 < a.base + a.length + 4096,
{
    let s = a.base as int;
    let e = a.base + a.length;
    assert((s / 4096) * 4096 <= s < (s / 4096) * 4096 + 4096) by (nonlinear_arith)
        requires
            s >= 0,
    ;
    assert(e <= ((e - 1) / 4096 + 1) * 4096 < e + 4096) by (nonlinear_arith)
        requires
            e >= 1,
    ;
}

/// The E820 type code a multiboot area type carries.
pub open spec fn area_e820_code(t: MultibootAreaType) -> u32 {
    match t {
        MultibootAreaType::Available => 1,
        MultibootAreaType::Reserved => 2,
        MultibootAreaType::AcpiAvailable => 3,
        MultibootAreaType::ReservedHibernate => 4,
        MultibootAreaType::Defective => 5,
    }
}

/// A multiboot area becomes the region type that its E820 code stands for:
/// the multiboot memory map and the E820 map give memory the same types.
pub proof fn lemma_area_types_follow_e820(t: MultibootAreaType)
    ensures
        area_region_type(t) == e820_type(area_e820_code(t)),
        area_region_type(t) == MemoryRegionType::Usable <==> t == MultibootAreaType::Available,
{
}

/// The available memory counts the available areas and nothing else: it is at
/// most the total, nothing when no area is available, and the total when every
/// area is.
pub proof fn lemma_available_counts_available_areas(s: Seq<MultibootArea>)
    ensures
        0 <= available_size(s) <= total_size(s),
        (forall|k: int| 0 <= k < s.len() ==> #[trigger] s[k].typ != MultibootAreaType::Available) ==> available_size(s)
            == 0,
        (forall|k: int| 0 <= k < s.len() ==> #[trigger] s[k].typ == MultibootAreaType::Available) ==> available_size(s)
            == total_size(s),
    decreases s.len(),
{
    if s.len() > 0 {
        let t = s.drop_last();
        lemma_available_counts_available_areas(t);
        assert forall|k: int| 0 <= k < t.len() implies #[trigger] t[k] == s[k] by {}
        assert(s.last() == s[s.len() - 1]);
    }
}

/// Returns the region type a multiboot area type becomes.
pub fn region_type_of(t: MultibootAreaType) -> (r: MemoryRegionType)
    ensures
        r == area_region_type(t),
        t == MultibootAreaType::Available ==> r == MemoryRegionType::Usable,
        t == MultibootAreaType::Reserved ==> r == MemoryRegionType::Reserved,
        t == MultibootAreaType::AcpiAvailable ==> r == MemoryRegionType::AcpiReclaimable,
        t == MultibootAreaType::ReservedHibernate ==> r == MemoryRegionType::AcpiNvs,
        t == MultibootAreaType::Defective ==> r == MemoryRegionType::BadMemory,
{
    match t {
        MultibootAreaType::Reserved => MemoryRegionType::Reserved,
        MultibootAreaType::Available => MemoryRegionType::Usable,
        MultibootAreaType::AcpiAvailable => MemoryRegionType::AcpiReclaimable,
        MultibootAreaType::ReservedHibernate => MemoryRegionType::AcpiNvs,
        MultibootAreaType::Defective => MemoryRegionType::BadMemory,
    }
}

proof fn lemma_total_size_step(s: Seq<MultibootArea>, i: int)
    requires
        0 <= i < s.len(),
    ensures
        total_size(s.take(i + 1)) == total_size(s.take(i)) + s[i].length,
        available_size(s.take(i + 1)) == available_size(s.take(i)) + if s[i].typ
            == MultibootAreaType::Available {
            s[i].length as int
        } else {
            0
        },
{
    assert(s.take(i + 1).drop_last() =~= s.take(i));
}

proof fn lemma_total_size_prefix(s: Seq<MultibootArea>, i: int)
    requires
        0 <= i <= s.len(),
    ensures
        available_size(s.take(i)) <= total_size(s.take(i)),
        total_size(s.take(i)) <= total_size(s),
        0 <= available_size(s.take(i)),
    decreases s.len() - i,
{
    lemma_available_nonneg(s.take(i));
    if i < s.len() {
        lemma_total_size_step(s, i);
        lemma_total_size_prefix(s, i + 1);
    } else {
        assert(s.take(i) =~= s);
        lemma_available_nonneg(s);
    }
}

proof fn lemma_available_nonneg(s: Seq<MultibootArea>)
    ensures
        0 <= available_size(s) <= total_size(s),
    decreases s.len(),
{
    if s.len() > 0 {
        lemma_available_nonneg(s.drop_last());
    }
}

/// Builds the memory map from the multiboot memory areas: every area becomes a
/// region of the matching type, and the sizes of all areas and of the areas
/// marked available are summed up.
pub fn memory_map_from_areas(areas: &[MultibootArea]) -> (r: (MemoryMap, RamSummary))
    requires
        areas@.len() <= MAX_MEMORY_MAP_SIZE,
        forall|i: int| 0 <= i < areas@.len() ==> area_ok(#[trigger] areas@[i]),
        total_size(areas@) <= u64::MAX,
    ensures
        r.0.wf(),
        r.0.tidy(),
        r.0.regions() == nonempty_regions(areas@.map_values(|a: MultibootArea| area_region(a))),
        r.1.existing_ram == total_size(areas@),
        r.1.available_ram == available_size(areas@),
{
    let ghost regs = areas@.map_values(|a: MultibootArea| area_region(a));
    let mut map = MemoryMap::new();
    let mut existing: u64 = 0;
    let mut available: u64 = 0;
    let mut i: usize = 0;
    proof {
        broadcast use vstd::multiset::group_multiset_properties;

        assert(regs.take(0) =~= Seq::<MemoryRegion>::empty());
        lemma_count_nonempty_multiset(map.entries());
        lemma_count_nonempty_multiset(regs.take(0));
        assert(map.regions().len() == 0);
        assert(nonempty_regions(regs.take(0)).len() == 0);
        assert(map.regions() =~= Multiset::empty());
        assert(nonempty_regions(regs.take(0)) =~= Multiset::empty());
    }
    while i < areas.len()
        invariant
            areas@.len() <= MAX_MEMORY_MAP_SIZE,
            forall|j: int| 0 <= j < areas@.len() ==> area_ok(#[trigger] areas@[j]),
            total_size(areas@) <= u64::MAX,
            regs == areas@.map_values(|a: MultibootArea| area_region(a)),
            i <= areas@.len(),
            map.wf(),
            map.tidy(),
            map.regions() == nonempty_regions(regs.take(i as int)),
            map.num_regions() == count_nonempty(regs.take(i as int)),
            map.num_regions() <= i,
            existing == total_size(areas@.take(i as int)),
            available == available_size(areas@.take(i as int)),
        decreases areas@.len() - i,
    {
        let area = areas[i];
        proof {
            lemma_total_size_step(areas@, i as int);
            lemma_total_size_prefix(areas@, i as int + 1);
            lemma_count_take(regs, i as int);
            assert(regs[i as int] == area_region(area));
        }
        existing = existing + area.length;
        if area.typ == MultibootAreaType::Available {
            available = available + area.length;
        }
        let region = MemoryRegion {
            range: FrameRange::new(area.base, area.base + area.length),
            region_type: region_type_of(area.typ),
        };
        assert(region == area_region(area));
        map.add_region(region);
        i = i + 1;
    }
    proof {
        assert(regs.take(areas@.len() as int) =~= regs);
        assert(areas@.take(areas@.len() as int) =~= areas@);
    }
    (map, RamSummary { existing_ram: existing, available_ram: available })
}

/// One step of the overlap repair at used slot `idx`, `last` being the slot of
/// the region compared against: the regions after the step and the slot compared
/// against at the next step.  A region that starts inside the compared one is
/// moved to start at its end when it is usable (and the compared slot stays);
/// else it is stretched to the larger of the two ends and the compared region is
/// cut back to where it starts.
pub open spec fn overlap_step(s: Seq<MemoryRegion>, idx: int, last: Option<int>) -> (Seq<MemoryRegion>, Option<int>) {
    match last {
        Some(l) => {
            let prev = s[l];
            let cur = s[idx];
            if range_contains(prev.range, start_of(cur.range)) {
                if cur.region_type == MemoryRegionType::Usable {
                    let moved = MemoryRegion {
                        range: FrameRange {
                            start_frame_number: prev.range.end_frame_number,
                            end_frame_number: cur.range.end_frame_number,
                        },
                        region_type: cur.region_type,
                    };
                    (s.update(idx, moved), last)
                } else {
                    let stretched = MemoryRegion {
                        range: FrameRange {
                            start_frame_number: cur.range.start_frame_number,
                            end_frame_number: if prev.range.end_frame_number
                                >= cur.range.end_frame_number {
                                prev.range.end_frame_number
                            } else {
                                cur.range.end_frame_number
                            },
                        },
                        region_type: cur.region_type,
                    };
                    let cut = MemoryRegion {
                        range: FrameRange {
                            start_frame_number: prev.range.start_frame_number,
                            end_frame_number: cur.range.start_frame_number,
                        },
                        region_type: prev.region_type,
                    };
                    (s.update(idx, stretched).update(l, cut), Some(idx))
                }
            } else {
                (s, Some(idx))
            }
        },
        None => (s, Some(idx)),
    }
}

/// The regions after the overlap repair has run over used slots `idx..n`.
pub open spec fn overlap_fix_from(s: Seq<MemoryRegion>, idx: int, last: Option<int>, n: int) -> Seq<MemoryRegion>
    decreases n - idx,
{
    if idx < 0 || idx >= n {
        s
    } else {
        let (t, l) = overlap_step(s, idx, last);
        overlap_fix_from(t, idx + 1, l, n)
    }
}

/// Whether region `r` holds frame `f`.
pub open spec fn holds_frame(r: MemoryRegion, f: int) -> bool {
    r.range.start_frame_number <= f < r.range.end_frame_number
}

/// One repair step on a region `cur` that starts inside the region `prev` it is
/// compared with (`prev` starting no later): afterwards the two share no frame,
/// every frame either held before is held by one of them after, a usable `cur`
/// only gives frames up (to `prev`, which stays as it is), no region changes
/// type, and no other slot changes.
pub proof fn lemma_overlap_step_separates(s: Seq<MemoryRegion>, idx: int, l: int)
    requires
        0 <= l < s.len(),
        0 <= idx < s.len(),
        l != idx,
        s[l].range.start_frame_number <= s[idx].range.start_frame_number < s[l].range.end_frame_number,
    ensures
        ({
            let t = overlap_step(s, idx, Some(l)).0;
            &&& t.len() == s.len()
            &&& forall|j: int| 0 <= j < s.len() ==> #[trigger] t[j].region_type == s[j].region_type
            &&& forall|j: int| 0 <= j < s.len() && j != l && j != idx ==> #[trigger] t[j] == s[j]
            &&& !regions_overlap(t[l], t[idx])
            &&& forall|f: int|
                holds_frame(s[l], f) || holds_frame(s[idx], f) ==> #[trigger] holds_frame(t[l], f) || holds_frame(
                    t[idx],
                    f,
                )
            &&& s[idx].region_type == MemoryRegionType::Usable ==> t[l] == s[l] && forall|f: int|
                #[trigger] holds_frame(t[idx], f) ==> holds_frame(s[idx], f)
        }),
{
    assert(range_contains(s[l].range, start_of(s[idx].range))) by (nonlinear_arith)
        requires
            s[l].range.start_frame_number <= s[idx].range.start_frame_number < s[l].range.end_frame_number,
    ;
}

/// The overlap repair keeps the number of regions and the type of every slot.
pub proof fn lemma_overlap_fix_keeps_types(s: Seq<MemoryRegion>, idx: int, last: Option<int>, n: int)
    requires
        last matches Some(l) ==> 0 <= l < s.len(),
        n <= s.len(),
    ensures
        overlap_fix_from(s, idx, last, n).len() == s.len(),
        forall|j: int| 0 <= j < s.len() ==> #[trigger] overlap_fix_from(s, idx, last, n)[j].region_type == s[j].region_type,
    decreases n - idx,
{
    if 0 <= idx < n {
        let (t, nl) = overlap_step(s, idx, last);
        assert(t.len() == s.len());
        assert(forall|j: int| 0 <= j < s.len() ==> #[trigger] t[j].region_type == s[j].region_type);
        lemma_overlap_fix_keeps_types(t, idx + 1, nl, n);
    }
}

/// Repairs overlapping regions, walking the used slots in order and comparing each
/// region with the last one kept for comparison (see `overlap_step`).
pub fn fix_overlapping_regions(map: &mut MemoryMap)
    requires
        old(map).wf(),
        old(map).all_fit(),
    ensures
        final(map).wf(),
        final(map).all_fit(),
        final(map).next() == old(map).next(),
        final(map).entries() == overlap_fix_from(old(map).entries(), 0, None, old(map).next()),
{
    let n = map.next_entry_index();
    let mut last: Option<usize> = None;
    let mut idx: usize = 0;
    while idx < n
        invariant
            map.wf(),
            map.all_fit(),
            map.next() == n,
            idx <= n,
            last matches Some(l) ==> l < idx,
            overlap_fix_from(
                map.entries(),
                idx as int,
                match last {
                    Some(l) => Some(l as int),
                    None => None,
                },
                n as int,
            ) == overlap_fix_from(old(map).entries(), 0, None, n as int),
        decreases n - idx,
    {
        let ghost s = map.entries();
        let ghost gl: Option<int> = match last {
            Some(l) => Some(l as int),
            None => None,
        };
        let cur = map.region_at(idx);
        assert(addrs_fit(s[idx as int].range));
        let mut keep_last = false;
        match last {
            Some(l) => {
                let prev = map.region_at(l);
                assert(addrs_fit(s[l as int].range));
                let cur_start = cur.range.start_addr();
                if prev.range.intersects(cur_start) {
                    if cur.region_type == MemoryRegionType::Usable {
                        let mut moved = cur;
                        moved.range.set_start_addr(prev.range.end_addr());
                        map.set_region(idx, moved);
                        keep_last = true;
                        assert(map.entries() == overlap_step(s, idx as int, gl).0);
                    } else {
                        let prev_end = prev.range.end_addr();
                        let cur_end = cur.range.end_addr();
                        let max_end = if prev_end >= cur_end {
                            prev_end
                        } else {
                            cur_end
                        };
                        let mut stretched = cur;
                        stretched.range.set_end_addr(max_end);
                        map.set_region(idx, stretched);
                        let mut cut = prev;
                        cut.range.set_end_addr(cur_start);
                        map.set_region(l, cut);
                        assert(map.entries() =~= overlap_step(s, idx as int, gl).0);
                    }
                } else {
                    assert(map.entries() == overlap_step(s, idx as int, gl).0);
                }
            },
            None => {},
        }
        proof {
            assert forall|i: int| 0 <= i < map.next() implies addrs_fit(
                #[trigger] map.entries()[i].range,
            ) by {
                assert(addrs_fit(s[i].range));
            }
        }
        if !keep_last {
            last = Some(idx);
        }
        idx = idx + 1;
    }
    proof {
        assert(overlap_fix_from(map.entries(), n as int, match last {
            Some(l) => Some(l as int),
            None => None,
        }, n as int) == map.entries());
    }
}

/// The part of a usable region `start..end` that is marked dangerous because it
/// lies below 1 MiB: the whole region when it ends below 1 MiB, its part below
/// 1 MiB when it reaches above 1 MiB, and nothing else (a region that ends at
/// exactly 1 MiB, too, is left as it is).
pub open spec fn low_part(start: u64, end: u64) -> Option<(u64, u64)> {
    if start < ONE_MEG && end < ONE_MEG {
        Some((start, end))
    } else if start < ONE_MEG && end > ONE_MEG {
        Some((start, ONE_MEG))
    } else {
        None
    }
}

/// Returns the part of a usable region below 1 MiB that is marked dangerous.
pub fn low_memory_part(start: u64, end: u64) -> (r: Option<(u64, u64)>)
    ensures
        r == low_part(start, end),
{
    if start < ONE_MEG && end < ONE_MEG {
        Some((start, end))
    } else if start < ONE_MEG && end > ONE_MEG {
        Some((start, ONE_MEG))
    } else {
        None
    }
}

/// Whether two regions share a frame.
pub open spec fn regions_overlap(a: MemoryRegion, b: MemoryRegion) -> bool {
    a.range.start_frame_number < b.range.end_frame_number && b.range.start_frame_number
        < a.range.end_frame_number
}

/// Whether the used slots of the map hold ranges that run upwards and share no
/// frame with each other.
pub open spec fn separate_slots(m: MemoryMap) -> bool {
    &&& forall|i: int|
        0 <= i < m.next() ==> (#[trigger] m.entries()[i]).range.start_frame_number
            < m.entries()[i].range.end_frame_number
    &&& forall|i: int, j: int|
        0 <= i < j < m.next() ==> !regions_overlap(#[trigger] m.entries()[i], #[trigger] m.entries()[j])
}

/// Whether every region occurs once, runs upwards and shares no frame with
/// another.
pub open spec fn separate_regions(ms: Multiset<MemoryRegion>) -> bool {
    &&& forall|a: MemoryRegion|
        #[trigger] ms.contains(a) ==> ms.count(a) == 1 && a.range.start_frame_number
            < a.range.end_frame_number
    &&& forall|a: MemoryRegion, b: MemoryRegion|
        #[trigger] ms.contains(a) && #[trigger] ms.contains(b) && a != b ==> !regions_overlap(a, b)
}

/// Whether marking the low memory changes the region: it is usable, starts
/// below 1 MiB and does not end exactly at 1 MiB.
pub open spec fn marks_low(r: MemoryRegion) -> bool {
    &&& r.region_type == MemoryRegionType::Usable
    &&& start_of(r.range) < ONE_MEG
    &&& end_of(r.range) != ONE_MEG
}

/// The regions of a map whose used slots are separate are those slots, each
/// once.
proof fn lemma_regions_of_separate(m: MemoryMap)
    requires
        m.wf(),
        separate_slots(m),
    ensures
        separate_regions(m.regions()),
        forall|i: int| 0 <= i < m.next() ==> m.regions().contains(#[trigger] m.entries()[i]),
        forall|a: MemoryRegion|
            #[trigger] m.regions().contains(a) ==> exists|i: int| 0 <= i < m.next() && m.entries()[i] == a,
{
    broadcast use {
        vstd::multiset::group_multiset_axioms,
        vstd::seq_lib::group_to_multiset_ensures,
    };

    let s = m.entries();
    let n = m.next();
    let t = s.take(n);
    let u = s.skip(n);
    assert(s =~= t + u);
    vstd::seq_lib::lemma_multiset_commutative(t, u);
    assert forall|a: MemoryRegion| #[trigger] m.regions().count(a) == t.to_multiset().count(a) by {
        if !range_empty(a.range) {
            if u.contains(a) {
                let k = choose|k: int| 0 <= k < u.len() && u[k] == a;
                assert(range_empty(s[n + k].range));
            }
        } else {
            if t.contains(a) {
                let k = choose|k: int| 0 <= k < t.len() && t[k] == a;
                assert(s[k] == a);
            }
        }
    }
    assert(m.regions() =~= t.to_multiset());
    assert forall|i: int, j: int| 0 <= i < t.len() && 0 <= j < t.len() && i != j implies t[i] != t[j] by {
        if i < j {
            assert(!regions_overlap(s[i], s[j]));
        } else {
            assert(!regions_overlap(s[j], s[i]));
        }
    }
    assert(t.no_duplicates());
    t.lemma_multiset_has_no_duplicates();
    assert forall|i: int| 0 <= i < n implies m.regions().contains(#[trigger] s[i]) by {
        assert(t[i] == s[i]);
        assert(t.contains(s[i]));
    }
    assert forall|a: MemoryRegion| #[trigger] m.regions().contains(a) implies exists|i: int|
        0 <= i < n && s[i] == a by {
        assert(t.contains(a));
        let k = choose|k: int| 0 <= k < t.len() && t[k] == a;
        assert(s[k] == a);
    }
    assert forall|a: MemoryRegion, b: MemoryRegion|
        #[trigger] m.regions().contains(a) && #[trigger] m.regions().contains(b) && a != b implies !regions_overlap(a, b) by {
        let i = choose|i: int| 0 <= i < n && s[i] == a;
        let j = choose|j: int| 0 <= j < n && s[j] == b;
        if i < j {
            assert(!regions_overlap(s[i], s[j]));
        } else {
            assert(!regions_overlap(s[j], s[i]));
        }
    }
}

/// In a map whose regions are separate, a lookup of an address of one of its
/// regions finds that region.
proof fn lemma_lookup_finds(m: MemoryMap, x: MemoryRegion, addr: int)
    requires
        m.wf(),
        separate_regions(m.regions()),
        m.regions().contains(x),
        range_contains(x.range, addr),
    ensures
        m.lookup(addr) matches Some(i) && m.entries()[i] == x,
{
    broadcast use {
        vstd::multiset::group_multiset_axioms,
        vstd::seq_lib::group_to_multiset_ensures,
    };

    let s = m.entries();
    assert(!range_empty(x.range));
    assert(s.to_multiset().count(x) > 0);
    assert(s.contains(x));
    let k = choose|k: int| 0 <= k < s.len() && s[k] == x;
    assert(k < m.next());
    lemma_lookup_from(s, m.next(), addr, 0);
    match m.lookup(addr) {
        Some(i) => {
            let y = s[i];
            assert(range_contains(y.range, addr));
            assert(!range_empty(y.range)) by (nonlinear_arith)
                requires
                    y.range.start_frame_number * 4096 <= addr < y.range.end_frame_number * 4096,
            ;
            assert(s.contains(y));
            assert(m.regions().contains(y));
            if y != x {
                assert(!regions_overlap(x, y));
                assert(false) by (nonlinear_arith)
                    requires
                        y.range.start_frame_number * 4096 <= addr < y.range.end_frame_number * 4096,
                        x.range.start_frame_number * 4096 <= addr < x.range.end_frame_number * 4096,
                        !(x.range.start_frame_number < y.range.end_frame_number
                            && y.range.start_frame_number < x.range.end_frame_number),
                ;
            }
        },
        None => {
            assert(range_contains(s[k].range, addr));
        },
    }
}

/// Why the bootloader stops while it changes the memory map.
#[derive(Debug)]
pub enum BootError {
    /// A partition of the memory map failed.
    Partition(PartitionError),
    /// A region's addresses do not fit in 64 bits, or a partition would need more
    /// region slots than the map has.
    MapOverflow,
    /// The ACPI tables list no core.
    NoCores,
    /// The ACPI tables list more cores than there are slots.
    TooManyCores,
    /// The free blocks ran out before every stack was placed.
    OutOfStackMemory,
    /// A stack placed at this address would reach above 4 GiB.
    StackAboveFourGig(u64),
    /// A block at this address is not aligned as its stacks and tables need.
    Misaligned(u64),
    /// The window for the TSS first-level tables has no table left.
    OutOfPageTables,
    /// The guard pages of the block at this address reach past its table.
    GuardCrossesTable(u64),
}

/// One marking step on the regions: `x`, a usable region that starts below
/// 1 MiB and reaches to `e` (its end or 1 MiB, the nearer), was replaced by the
/// parts of its partition at `start_of(x)..e`.  The regions stay separate, the
/// regions still to visit stay in the map, and every region that needs marking
/// is still to be visited.
proof fn lemma_mark_step(
    before: Multiset<MemoryRegion>,
    after: Multiset<MemoryRegion>,
    x: MemoryRegion,
    e: u64,
    todo: Seq<MemoryRegion>,
    idx: int,
)
    requires
        separate_regions(before),
        before.contains(x),
        marks_low(x),
        start_of(x.range) <= u64::MAX,
        end_of(x.range) < ONE_MEG ==> e == end_of(x.range),
        end_of(x.range) > ONE_MEG ==> e == ONE_MEG,
        0 <= idx < todo.len(),
        todo[idx] == x,
        forall|j: int| idx < j < todo.len() ==> #[trigger] todo[j] != x,
        forall|j: int| idx <= j < todo.len() ==> before.contains(#[trigger] todo[j]),
        forall|y: MemoryRegion|
            #[trigger] before.contains(y) && marks_low(y) ==> exists|j: int|
                idx <= j < todo.len() && todo[j] == y,
        ({
            let parts = partition_parts(
                x,
                start_of(x.range) as u64,
                e,
                MemoryRegionType::UsableButDangerous,
            );
            after == add_part(add_part(add_part(before.remove(x), parts[0]), parts[1]), parts[2])
        }),
    ensures
        separate_regions(after),
        forall|j: int| idx + 1 <= j < todo.len() ==> after.contains(#[trigger] todo[j]),
        forall|y: MemoryRegion|
            #[trigger] after.contains(y) && marks_low(y) ==> exists|j: int|
                idx + 1 <= j < todo.len() && todo[j] == y,
{
    broadcast use vstd::multiset::group_multiset_axioms;

    let xs = x.range.start_frame_number;
    let xe = x.range.end_frame_number;
    let parts = partition_parts(x, start_of(x.range) as u64, e, MemoryRegionType::UsableButDangerous);
    assert(xs < xe);
    assert(e % 4096 == 0 && e / 4096 <= xe && e / 4096 > xs) by (nonlinear_arith)
        requires
            xs * 4096 < 0x10_0000,
            xs < xe,
            xe * 4096 != 0x10_0000,
            xe * 4096 < 0x10_0000 ==> e == xe * 4096,
            xe * 4096 > 0x10_0000 ==> e == 0x10_0000,
    ;
    let m0 = before.remove(x);
    let mid = parts[1];
    let above = parts[2];
    assert(parts[0] == empty_region());
    assert(mid.range.start_frame_number == xs);
    assert(mid.range.end_frame_number == e / 4096) by (nonlinear_arith)
        requires
            mid.range.end_frame_number == (if abs_diff(xe * 4096, e as int) < 4096 { xe } else { e / 4096 }),
            e % 4096 == 0,
            e / 4096 <= xe,
    ;
    assert(mid.region_type == MemoryRegionType::UsableButDangerous);
    let high = abs_diff(xe * 4096, e as int) < 4096;
    assert(high <==> e / 4096 == xe) by (nonlinear_arith)
        requires
            e % 4096 == 0,
            e / 4096 <= xe,
            high == (abs_diff(xe * 4096, e as int) < 4096),
    ;
    if !high {
        assert(above.range.start_frame_number == e / 4096);
        assert(above.range.end_frame_number == xe);
        assert(e == 0x10_0000);
        assert(above.region_type == MemoryRegionType::Usable);
    }
    // The regions other than `x` lie outside `x`, so outside its parts.
    assert forall|y: MemoryRegion| #[trigger] m0.contains(y) implies y != x && before.contains(y)
        && !regions_overlap(y, mid) && (!high ==> !regions_overlap(y, above)) by {
        assert(before.count(x) == 1);
        assert(before.contains(y));
        if y == x {
            assert(m0.count(x) == 0);
        }
        assert(!regions_overlap(x, y));
    }
    let m1 = add_part(m0, parts[0]);
    assert(m1 == m0);
    let m2 = add_part(m1, mid);
    assert(m2 == m0.insert(mid));
    assert(!m0.contains(mid)) by {
        if m0.contains(mid) {
            assert(!regions_overlap(mid, mid));
        }
    }
    if !high {
        assert(after == m2.insert(above));
        assert(!m2.contains(above)) by {
            if m0.contains(above) {
                assert(!regions_overlap(above, above));
            }
            assert(above != mid);
        }
    } else {
        assert(after == m2);
    }
    assert forall|a: MemoryRegion| #[trigger] after.contains(a) implies after.count(a) == 1
        && a.range.start_frame_number < a.range.end_frame_number && (a == mid || (!high && a == above)
        || m0.contains(a)) by {
        if a != mid && (high || a != above) {
            assert(m0.contains(a));
            assert(before.count(a) == 1);
        }
    }
    assert forall|a: MemoryRegion, b: MemoryRegion|
        #[trigger] after.contains(a) && #[trigger] after.contains(b) && a != b implies !regions_overlap(a, b) by {
        if m0.contains(a) && m0.contains(b) {
        } else if m0.contains(a) {
        } else if m0.contains(b) {
        } else {
        }
    }
    assert forall|j: int| idx + 1 <= j < todo.len() implies after.contains(#[trigger] todo[j]) by {
        assert(before.contains(todo[j]));
        assert(todo[j] != x);
        assert(m0.contains(todo[j]));
    }
    assert forall|y: MemoryRegion| #[trigger] after.contains(y) && marks_low(y) implies exists|j: int|
        idx + 1 <= j < todo.len() && todo[j] == y by {
        assert(m0.contains(y));
        assert(before.contains(y));
        let j = choose|j: int| idx <= j < todo.len() && todo[j] == y;
        assert(j != idx);
    }
}

/// Whether marking the low memory works on the region: it is usable and either
/// reaches beyond the frames whose addresses fit in 64 bits or starts below
/// 1 MiB and does not end exactly there.
pub open spec fn marking_touches(r: MemoryRegion) -> bool {
    &&& r.region_type == MemoryRegionType::Usable
    &&& (r.range.start_frame_number > 0xf_ffff_ffff_ffff || r.range.end_frame_number > 0xf_ffff_ffff_ffff
        || low_part(start_of(r.range) as u64, end_of(r.range) as u64) is Some)
}

/// Whether the frame numbers of the region reach past the frames whose
/// addresses fit in 64 bits.
pub open spec fn frames_overflow(x: MemoryRegion) -> bool {
    x.range.start_frame_number > 0xf_ffff_ffff_ffff || x.range.end_frame_number > 0xf_ffff_ffff_ffff
}

/// The part of region `x` that marking cuts out, if any: a usable region whose
/// addresses fit and that has a part below 1 MiB.
pub open spec fn mark_cut(x: MemoryRegion) -> Option<(u64, u64)> {
    if x.region_type == MemoryRegionType::Usable && !frames_overflow(x) {
        low_part(start_of(x.range) as u64, end_of(x.range) as u64)
    } else {
        None
    }
}

/// Marking region `x` goes through on map `m`: its addresses fit, where it is
/// usable, and the partition of its low part fits and passes its checks.
pub open spec fn mark_ok(m: MemoryMap, x: MemoryRegion) -> bool {
    &&& x.region_type == MemoryRegionType::Usable ==> !frames_overflow(x)
    &&& mark_cut(x) matches Some((s, e)) ==> m.partition_fits(s, e, MemoryRegionType::UsableButDangerous)
        && m.partition_check(s, e, MemoryRegionType::UsableButDangerous) is Ok
}

/// The error `e` is that of marking region `x` on map `m`: a usable region
/// whose addresses do not fit, or a partition of its low part that needs more
/// room than the map has (`MapOverflow`) or whose checks fail.
pub open spec fn mark_err(m: MemoryMap, x: MemoryRegion, e: BootError) -> bool {
    ||| x.region_type == MemoryRegionType::Usable && frames_overflow(x) && e == BootError::MapOverflow
    ||| mark_cut(x) matches Some((s, t)) && !m.partition_fits(s, t, MemoryRegionType::UsableButDangerous)
        && e == BootError::MapOverflow
    ||| mark_cut(x) matches Some((s, t)) && m.partition_fits(s, t, MemoryRegionType::UsableButDangerous)
        && (m.partition_check(s, t, MemoryRegionType::UsableButDangerous) matches Err(pe) && e
        == BootError::Partition(pe))
}

/// Marking region `x` leads from map `m` to map `m2`: its low part is cut out,
/// or, where it has none to cut, the map stays as it is.
pub open spec fn mark_step(m: MemoryMap, m2: MemoryMap, x: MemoryRegion) -> bool {
    match mark_cut(x) {
        Some((s, e)) => partitioned(m, m2, s, e, MemoryRegionType::UsableButDangerous),
        None => m2 == m,
    }
}

/// `maps` runs through the maps that marking the first `k` regions of `todo`
/// leads to, one map after each region.
pub open spec fn mark_chain(maps: Seq<MemoryMap>, todo: Seq<MemoryRegion>, k: int) -> bool {
    &&& maps.len() == k + 1
    &&& forall|j: int| 0 <= j < k ==> #[trigger] mark_step(maps[j], maps[j + 1], todo[j])
}

/// `m` is a map that marking the first `k` regions of `todo` leads to from
/// `m0`.
pub open spec fn mark_steps(m0: MemoryMap, m: MemoryMap, todo: Seq<MemoryRegion>, k: int) -> bool {
    exists|maps: Seq<MemoryMap>| #[trigger] mark_chain(maps, todo, k) && maps[0] == m0 && maps[k] == m
}

/// Marking no region leads from a map to itself.
proof fn lemma_mark_steps_start(m0: MemoryMap, todo: Seq<MemoryRegion>)
    ensures
        mark_steps(m0, m0, todo, 0),
{
    let maps = seq![m0];
    assert(mark_chain(maps, todo, 0));
}

/// Marking region `k` behind the first `k` extends the steps by one.
proof fn lemma_mark_steps_extend(m0: MemoryMap, prev: MemoryMap, m: MemoryMap, todo: Seq<MemoryRegion>, k: int)
    requires
        k >= 0,
        mark_steps(m0, prev, todo, k),
        mark_step(prev, m, todo[k]),
    ensures
        mark_steps(m0, m, todo, k + 1),
{
    let maps = choose|maps: Seq<MemoryMap>| #[trigger] mark_chain(maps, todo, k) && maps[0] == m0 && maps[k] == prev;
    let maps2 = maps.push(m);
    assert forall|j: int| 0 <= j < k + 1 implies #[trigger] mark_step(maps2[j], maps2[j + 1], todo[j]) by {
        if j < k {
            assert(maps2[j] == maps[j] && maps2[j + 1] == maps[j + 1]);
        } else {
            assert(maps2[j] == prev && maps2[j + 1] == m);
        }
    }
    assert(mark_chain(maps2, todo, k + 1));
}

/// Marking goes through for each of the first `n` regions of `todo` on every
/// map that marking the regions before it leads to from `m0`.
pub open spec fn marks_ok(m0: MemoryMap, todo: Seq<MemoryRegion>, n: int) -> bool {
    forall|k: int, m: MemoryMap| 0 <= k < n && #[trigger] mark_steps(m0, m, todo, k) ==> mark_ok(m, todo[k])
}

/// The error `e` is that of marking one of the first `n` regions of `todo` on a
/// map that marking the regions before it leads to from `m0`.
pub open spec fn marks_err(m0: MemoryMap, todo: Seq<MemoryRegion>, n: int, e: BootError) -> bool {
    exists|k: int, m: MemoryMap| 0 <= k < n && #[trigger] mark_steps(m0, m, todo, k) && mark_err(m, todo[k], e)
}

/// Marks the usable memory below 1 MiB as usable but dangerous: each region the
/// map held at the start that is usable and starts below 1 MiB has its part
/// below 1 MiB cut out as usable but dangerous (a region that ends exactly at
/// 1 MiB is left as it is).  The regions are visited in the order of the map's
/// slots at the start.
pub fn mark_low_memory_dangerous(map: &mut MemoryMap) -> (r: Result<(), BootError>)
    requires
        old(map).wf(),
    ensures
        final(map).wf(),
        forall|x: MemoryRegion|
            old(map).regions().contains(x) && !usable_type(x.region_type)
                ==> #[trigger] final(map).regions().contains(x),
        separate_slots(*old(map)) && r is Ok ==> forall|x: MemoryRegion|
            #[trigger] final(map).regions().contains(x) ==> !marks_low(x),
        (forall|i: int| 0 <= i < old(map).next() ==> !marking_touches(#[trigger] old(map).entries()[i]))
            ==> r is Ok && final(map).entries() == old(map).entries() && final(map).next() == old(map).next(),
        r matches Err(e) ==> e is MapOverflow || (e is Partition && !separate_slots(*old(map))),
        marks_ok(*old(map), old(map).entries(), old(map).next() as int) ==> r is Ok,
        r matches Err(e) ==> marks_err(*old(map), old(map).entries(), old(map).next() as int, e),
        r is Ok ==> mark_steps(*old(map), *final(map), old(map).entries(), old(map).next() as int),
{
    let n = map.next_entry_index();
    let mut todo: Vec<MemoryRegion> = Vec::new();
    let mut k: usize = 0;
    while k < n
        invariant
            map.wf(),
            n == map.next(),
            k <= n,
            todo@ == map.entries().take(k as int),
        decreases n - k,
    {
        todo.push(map.region_at(k));
        k = k + 1;
        assert(todo@ =~= map.entries().take(k as int));
    }
    let ghost sep = separate_slots(*map);
    let ghost untouched = forall|i: int| 0 <= i < map.next() ==> !marking_touches(#[trigger] map.entries()[i]);
    proof {
        if sep {
            lemma_regions_of_separate(*map);
            assert forall|y: MemoryRegion| #[trigger] map.regions().contains(y) && marks_low(y) implies exists|j: int|
                0 <= j < todo@.len() && todo@[j] == y by {
                let i = choose|i: int| 0 <= i < map.next() && map.entries()[i] == y;
                assert(todo@[i] == y);
            }
        }
    }
    let mut idx: usize = 0;
    proof {
        lemma_mark_steps_start(*map, map.entries());
    }
    while idx < n
        invariant
            map.wf(),
            mark_steps(*old(map), *map, old(map).entries(), idx as int),
            old(map).wf(),
            n <= MAX_MEMORY_MAP_SIZE,
            idx <= n,
            todo@.len() == n,
            n == old(map).next(),
            todo@ == old(map).entries().take(n as int),
            untouched == (forall|i: int| 0 <= i < old(map).next() ==> !marking_touches(#[trigger] old(map).entries()[i])),
            untouched ==> map.entries() == old(map).entries() && map.next() == old(map).next(),
            sep == separate_slots(*old(map)),
            sep ==> forall|i: int, j: int| 0 <= i < j < n ==> #[trigger] todo@[i] != #[trigger] todo@[j],
            forall|x: MemoryRegion|
                old(map).regions().contains(x) && !usable_type(x.region_type)
                    ==> #[trigger] map.regions().contains(x),
            sep ==> separate_regions(map.regions()),
            sep ==> forall|j: int| idx <= j < n ==> map.regions().contains(#[trigger] todo@[j]),
            sep ==> forall|y: MemoryRegion|
                #[trigger] map.regions().contains(y) && marks_low(y) ==> exists|j: int|
                    idx <= j < n && todo@[j] == y,
        decreases n - idx,
    {
        let region = todo[idx];
        let ghost before = map.regions();
        let ghost before_map = *map;
        let mut changed = false;
        proof {
            assert(region == old(map).entries()[idx as int]);
            assert(mark_steps(*old(map), before_map, old(map).entries(), idx as int));
            if untouched {
                assert(region == old(map).entries()[idx as int]);
                assert(!marking_touches(old(map).entries()[idx as int]));
            }
        }
        if region.region_type == MemoryRegionType::Usable {
            let max_frame: u64 = 0xf_ffff_ffff_ffff;
            if region.range.start_frame_number > max_frame || region.range.end_frame_number
                > max_frame {
                return Err(BootError::MapOverflow);
            }
            let start = region.range.start_addr();
            let end = region.range.end_addr();
            match low_memory_part(start, end) {
                Some((s, e)) => {
                    if !map.can_partition(s, e, MemoryRegionType::UsableButDangerous) {
                        return Err(BootError::MapOverflow);
                    }
                    let ghost pre = *map;
                    proof {
                        if sep {
                            assert(pre.regions().contains(region));
                            lemma_lookup_finds(pre, region, s as int);
                            assert(range_contains(region.range, e - 1));
                            lemma_lookup_finds(pre, region, e - 1);
                            assert(s % PAGE_SIZE == 0 && e % PAGE_SIZE == 0);
                            assert(pre.partition_check(s, e, MemoryRegionType::UsableButDangerous)
                                == Ok::<MemoryRegion, PartitionError>(region));
                        }
                    }
                    match map.partition_memory_region(s, e, MemoryRegionType::UsableButDangerous) {
                        Ok(_) => {},
                        Err(err) => {
                            return Err(BootError::Partition(err));
                        },
                    }
                    proof {
                        if sep {
                            assert(pre.regions().contains(region));
                            lemma_lookup_finds(pre, region, s as int);
                            assert(pre.partition_check(s, e, MemoryRegionType::UsableButDangerous)
                                == Ok::<MemoryRegion, PartitionError>(region));
                            assert forall|j: int| idx < j < n implies #[trigger] todo@[j] != region by {
                                assert(todo@[idx as int] == region);
                            }
                            lemma_mark_step(pre.regions(), map.regions(), region, e, todo@, idx as int);
                        }
                    }
                    changed = true;
                },
                None => {},
            }
        }
        proof {
            assert(mark_step(before_map, *map, old(map).entries()[idx as int]));
            lemma_mark_steps_extend(*old(map), before_map, *map, old(map).entries(), idx as int);
            if sep && !changed {
                assert(!marks_low(region));
                assert forall|y: MemoryRegion| #[trigger] map.regions().contains(y) && marks_low(y) implies exists|j: int|
                    idx + 1 <= j < n && todo@[j] == y by {
                    let j = choose|j: int| idx <= j < n && todo@[j] == y;
                    assert(j != idx);
                }
            }
        }
        idx = idx + 1;
    }
    Ok(())
}

/// Why a loaded image does not lie in good memory.
#[derive(Debug, PartialEq, Eq, Structural)]
pub enum ImageError {
    /// The image does not start at a page boundary.
    NotPageAligned(u64),
    /// The image ends where it starts, or before.
    EmptyImage,
    /// A page of the image lies in no region of the memory map.
    NotInMemoryMap(u64),
    /// A page of the image lies in a region that is not usable.
    NotUsable(u64, MemoryRegion),
}

/// Whether page `p` lies in a usable region of the map.
pub open spec fn page_usable(map: MemoryMap, p: int) -> bool {
    map.lookup(p) matches Some(i) && usable_type(map.entries()[i].region_type)
}

/// The error a page that is not usable gives.
pub open spec fn page_error(map: MemoryMap, p: u64) -> ImageError {
    match map.lookup(p as int) {
        Some(i) => ImageError::NotUsable(p, map.entries()[i]),
        None => ImageError::NotInMemoryMap(p),
    }
}

/// Page `k` of an image that starts at `addr`.
pub open spec fn image_page(addr: u64, k: int) -> int {
    addr + k * PAGE_SIZE
}

/// Checks that the image `addr..addr_end` lies in usable memory: it starts at a
/// page boundary, is not empty, and each of its pages lies in a usable region.
/// The first page that does not gives the error.
pub fn check_image_region(map: &MemoryMap, addr: u64, addr_end: u64) -> (r: Result<(), ImageError>)
    requires
        map.wf(),
        map.all_fit(),
    ensures
        addr % PAGE_SIZE != 0 ==> r == Err::<(), ImageError>(ImageError::NotPageAligned(addr)),
        addr % PAGE_SIZE == 0 && addr_end <= addr ==> r == Err::<(), ImageError>(ImageError::EmptyImage),
        addr % PAGE_SIZE == 0 && addr < addr_end ==> {
            ||| r is Ok && forall|k: int|
                0 <= k && image_page(addr, k) < addr_end ==> page_usable(
                    *map,
                    #[trigger] image_page(addr, k),
                )
            ||| exists|k: int|
                0 <= k && image_page(addr, k) < addr_end && !page_usable(*map, #[trigger] image_page(addr, k))
                    && r == Err::<(), ImageError>(page_error(*map, image_page(addr, k) as u64))
                    && forall|j: int| 0 <= j < k ==> page_usable(*map, #[trigger] image_page(addr, j))
        },
{
    if addr % PAGE_SIZE != 0 {
        return Err(ImageError::NotPageAligned(addr));
    }
    if addr_end <= addr {
        return Err(ImageError::EmptyImage);
    }
    let mut p = addr;
    let ghost mut k: int = 0;
    loop
        invariant
            map.wf(),
            map.all_fit(),
            addr % PAGE_SIZE == 0,
            addr < addr_end,
            p == addr + k * PAGE_SIZE,
            k >= 0,
            p < addr_end,
            forall|j: int| 0 <= j < k ==> page_usable(*map, #[trigger] image_page(addr, j)),
        decreases addr_end - p,
    {
        proof {
            map.lemma_all_fit_lookup(p as int);
        }
        match map.region_containing(p) {
            Some(region) => {
                if region.region_type != MemoryRegionType::Usable && region.region_type
                    != MemoryRegionType::UsableButDangerous {
                    assert(!page_usable(*map, image_page(addr, k)));
                    return Err(ImageError::NotUsable(p, *region));
                }
            },
            None => {
                assert(!page_usable(*map, image_page(addr, k)));
                return Err(ImageError::NotInMemoryMap(p));
            },
        }
        assert(page_usable(*map, image_page(addr, k)));
        if addr_end - p <= PAGE_SIZE {
            assert forall|j: int| 0 <= j && image_page(addr, j) < addr_end implies page_usable(
                *map,
                #[trigger] image_page(addr, j),
            ) by {
                assert(j <= k) by (nonlinear_arith)
                    requires
                        addr + j * 4096 < addr_end,
                        addr_end <= addr + k * 4096 + 4096,
                ;
            }
            return Ok(());
        }
        p = p + PAGE_SIZE;
        proof {
            k = k + 1;
        }
    }
}

/// Why the machine or the loaded image does not fit the bootloader's layout.
#[derive(Debug, PartialEq, Eq, Structural)]
pub enum LayoutError {
    /// The bootloader reaches beyond 2 MiB.
    BootloaderTooBig,
    /// Less usable memory than the kernel needs; the need in bytes.
    NotEnoughRam(u64),
    /// The kernel does not start at 2 MiB; where it starts.
    KernelMisplaced(u64),
    /// The bootstrap core's APIC id is not zero.
    BspNotZero,
}

/// Checks, in this order, that the bootloader ends below 2 MiB, that the usable
/// memory covers the kernel's minimum, that the kernel starts at 2 MiB and that
/// the bootstrap core has APIC id zero.
pub fn check_layout(
    bootloader_end: u64,
    available_ram: u64,
    min_ram: u64,
    kernel_start: u64,
    bsp_apic_id: u8,
) -> (r: Result<(), LayoutError>)
    ensures
        bootloader_end >= TWO_MEG ==> r == Err::<(), LayoutError>(LayoutError::BootloaderTooBig),
        bootloader_end < TWO_MEG && available_ram < min_ram ==> r == Err::<(), LayoutError>(
            LayoutError::NotEnoughRam(min_ram),
        ),
        bootloader_end < TWO_MEG && available_ram >= min_ram && kernel_start != TWO_MEG ==> r
            == Err::<(), LayoutError>(LayoutError::KernelMisplaced(kernel_start)),
        bootloader_end < TWO_MEG && available_ram >= min_ram && kernel_start == TWO_MEG
            && bsp_apic_id != 0 ==> r == Err::<(), LayoutError>(LayoutError::BspNotZero),
        r is Ok <==> bootloader_end < TWO_MEG && available_ram >= min_ram && kernel_start
            == TWO_MEG && bsp_apic_id == 0,
{
    if bootloader_end >= TWO_MEG {
        return Err(LayoutError::BootloaderTooBig);
    }
    if available_ram < min_ram {
        return Err(LayoutError::NotEnoughRam(min_ram));
    }
    if kernel_start != TWO_MEG {
        return Err(LayoutError::KernelMisplaced(kernel_start));
    }
    if bsp_apic_id != 0 {
        return Err(LayoutError::BspNotZero);
    }
    Ok(())
}

/// The size of a core's kernel stack.
pub const CORE_STACK_SIZE: u64 = 0x80_0000;

/// The size of the guard below a core's kernel stack.
pub const CORE_GUARD_SIZE: u64 = 0x20_0000;

/// The size of a TSS interrupt stack.
pub const TSS_STACK_SIZE: u64 = 0x1_e000;

/// The size of the guard below a TSS interrupt stack.
pub const TSS_GUARD_SIZE: u64 = 0x2000;

/// The flag bits of page table entries.
pub const PRESENT: u64 = 1;
pub const WRITABLE: u64 = 2;
pub const NO_CACHE: u64 = 16;
pub const HUGE_PAGE: u64 = 128;
pub const NO_EXECUTE: u64 = 0x8000_0000_0000_0000;

/// Where a stack lies in a block of free memory: the guard from `guard_start` to
/// `stack_end`, then the stack, which grows down from `stack_start` to
/// `stack_end`.
#[derive(Debug, Clone, Copy, PartialEq, Eq, Structural)]
pub struct StackPlacement {
    pub guard_start: u64,
    pub stack_end: u64,
    pub stack_start: u64,
}

/// The index into the third-level table of the page holding `addr`.
pub open spec fn p3_index_of(addr: u64) -> int {
    (addr as int / 0x4000_0000) % 512
}

/// The index into the second-level table of the page holding `addr`.
pub open spec fn p2_index_of(addr: u64) -> int {
    (addr as int / 0x20_0000) % 512
}

/// The index into the first-level table of the page holding `addr`.
pub open spec fn p1_index_of(addr: u64) -> int {
    (addr as int / 0x1000) % 512
}

/// Returns the index into the third-level table of the page holding `addr`.
pub fn p3_index(addr: u64) -> (r: usize)
    ensures
        r == p3_index_of(addr),
        r < ENTRY_COUNT,
{
    assert((addr >> 30u64) & 511u64 == (addr / 0x4000_0000u64) % 512u64) by (bit_vector);
    ((addr >> 30u64) & 511u64) as usize
}

/// Returns the index into the second-level table of the page holding `addr`.
pub fn p2_index(addr: u64) -> (r: usize)
    ensures
        r == p2_index_of(addr),
        r < ENTRY_COUNT,
{
    assert((addr >> 21u64) & 511u64 == (addr / 0x20_0000u64) % 512u64) by (bit_vector);
    ((addr >> 21u64) & 511u64) as usize
}

/// Returns the index into the first-level table of the page holding `addr`.
pub fn p1_index(addr: u64) -> (r: usize)
    ensures
        r == p1_index_of(addr),
        r < ENTRY_COUNT,
{
    assert((addr >> 12u64) & 511u64 == (addr / 0x1000u64) % 512u64) by (bit_vector);
    ((addr >> 12u64) & 511u64) as usize
}

/// The flags of a core's kernel stack guard: present, huge, not executable.
pub fn guard_page_flags() -> (r: PageTableFlags)
    ensures
        r.value() == PRESENT | HUGE_PAGE | NO_EXECUTE,
{
    PageTableFlags::present().union(PageTableFlags::huge_page()).union(PageTableFlags::no_execute())
}

/// Both partitions of a stack placement go through on map `m`: the guard
/// `a..b` as `t1`, then, on every map that first partition leads to, the stack
/// `b..c` as `t2`.
pub open spec fn placement_ok(
    m: MemoryMap,
    a: u64,
    b: u64,
    c: u64,
    t1: MemoryRegionType,
    t2: MemoryRegionType,
) -> bool {
    &&& m.partition_fits(a, b, t1)
    &&& m.partition_check(a, b, t1) is Ok
    &&& forall|mid: MemoryMap|
        #[trigger] partitioned(m, mid, a, b, t1) ==> mid.partition_fits(b, c, t2) && mid.partition_check(
            b,
            c,
            t2,
        ) is Ok
}

/// The error `e` is that of a partition of a stack placement on map `m` that
/// does not go through: the guard's, or the stack's on a map the guard's
/// partition leads to.  A partition that would need more room than the map has
/// gives `MapOverflow`; one whose checks fail gives their error.
pub open spec fn placement_err(
    m: MemoryMap,
    a: u64,
    b: u64,
    c: u64,
    t1: MemoryRegionType,
    t2: MemoryRegionType,
    e: BootError,
) -> bool {
    ||| !m.partition_fits(a, b, t1) && e == BootError::MapOverflow
    ||| m.partition_fits(a, b, t1) && (m.partition_check(a, b, t1) matches Err(pe) && e == BootError::Partition(pe))
    ||| m.partition_fits(a, b, t1) && exists|mid: MemoryMap|
        #[trigger] partitioned(m, mid, a, b, t1) && ((!mid.partition_fits(b, c, t2) && e == BootError::MapOverflow)
            || (mid.partition_fits(b, c, t2) && (mid.partition_check(b, c, t2) matches Err(pe) && e
            == BootError::Partition(pe))))
}

/// `after` is a map that both partitions of a stack placement lead to.
pub open spec fn placed(
    m: MemoryMap,
    after: MemoryMap,
    a: u64,
    b: u64,
    c: u64,
    t1: MemoryRegionType,
    t2: MemoryRegionType,
) -> bool {
    exists|mid: MemoryMap| #[trigger] partitioned(m, mid, a, b, t1) && partitioned(mid, after, b, c, t2)
}

/// Places the kernel stack of core `i` in the free block at `addr` (a 2 MiB guard,
/// then 8 MiB of stack) and records it in the core slot with the core's APIC id;
/// the core is counted as found.  The guard and the stack are then cut out of
/// the memory map.
pub fn setup_core_stack(info: &mut BootInfo, i: usize, addr: u64, apic_id: u8) -> (r: Result<
    StackPlacement,
    BootError,
>)
    requires
        old(info).cores.wf(),
        old(info).memory_map.wf(),
        old(info).cores.count() < u32::MAX,
        i < MAX_CORES,
        addr + CORE_GUARD_SIZE + CORE_STACK_SIZE <= u32::MAX,
    ensures
        final(info).cores.wf(),
        final(info).memory_map.wf(),
        final(info).cores.count() == old(info).cores.count() + 1,
        final(info).cores.booted() == old(info).cores.booted(),
        r matches Err(e) ==> e is Partition || e is MapOverflow,
        forall|x: MemoryRegion|
            old(info).memory_map.regions().contains(x) && !usable_type(x.region_type)
                ==> #[trigger] final(info).memory_map.regions().contains(x),
        final(info).cores.slots().len() == MAX_CORES,
        forall|j: int| 0 <= j < MAX_CORES && j != i ==> #[trigger] final(info).cores.slots()[j] == old(info).cores.slots()[j],
        final(info).cores.slots()[i as int].stack_start() == addr + CORE_GUARD_SIZE + CORE_STACK_SIZE,
        final(info).cores.slots()[i as int].stack_end() == addr + CORE_GUARD_SIZE,
        final(info).cores.slots()[i as int].apic() == apic_id as u16,
        final(info).cores.slots()[i as int].tss_view() == old(info).cores.slots()[i as int].tss_view(),
        !old(info).memory_map.partition_fits(addr, (addr + CORE_GUARD_SIZE) as u64, MemoryRegionType::GuardPage)
            ==> r == Err::<StackPlacement, BootError>(BootError::MapOverflow),
        old(info).memory_map.partition_fits(addr, (addr + CORE_GUARD_SIZE) as u64, MemoryRegionType::GuardPage)
            ==> (old(info).memory_map.partition_check(addr, (addr + CORE_GUARD_SIZE) as u64, MemoryRegionType::GuardPage)
            matches Err(e) ==> r == Err::<StackPlacement, BootError>(BootError::Partition(e))),
        r matches Ok(p) ==> p == (StackPlacement {
            guard_start: addr,
            stack_end: (addr + CORE_GUARD_SIZE) as u64,
            stack_start: (addr + CORE_GUARD_SIZE + CORE_STACK_SIZE) as u64,
        }),
        r is Ok ==> final(info).memory_map.regions().contains(
            frames_region(addr, (addr + CORE_GUARD_SIZE) as u64, MemoryRegionType::GuardPage),
        ),
        r is Ok ==> final(info).memory_map.regions().contains(
            frames_region(
                (addr + CORE_GUARD_SIZE) as u64,
                (addr + CORE_GUARD_SIZE + CORE_STACK_SIZE) as u64,
                MemoryRegionType::KernelStack,
            ),
        ),
        placement_ok(
            old(info).memory_map,
            addr,
            (addr + CORE_GUARD_SIZE) as u64,
            (addr + CORE_GUARD_SIZE + CORE_STACK_SIZE) as u64,
            MemoryRegionType::GuardPage,
            MemoryRegionType::KernelStack,
        ) ==> r is Ok,
        r matches Err(e) ==> placement_err(
            old(info).memory_map,
            addr,
            (addr + CORE_GUARD_SIZE) as u64,
            (addr + CORE_GUARD_SIZE + CORE_STACK_SIZE) as u64,
            MemoryRegionType::GuardPage,
            MemoryRegionType::KernelStack,
            e,
        ),
        r is Ok ==> placed(
            old(info).memory_map,
            final(info).memory_map,
            addr,
            (addr + CORE_GUARD_SIZE) as u64,
            (addr + CORE_GUARD_SIZE + CORE_STACK_SIZE) as u64,
            MemoryRegionType::GuardPage,
            MemoryRegionType::KernelStack,
        ),
{
    info.cores.add_found_core();
    let stack_start = addr + CORE_STACK_SIZE + CORE_GUARD_SIZE;
    let stack_end = addr + CORE_GUARD_SIZE;
    let mut core = *info.cores.get(i);
    core.set_stack_start(stack_start as u32);
    core.set_stack_end(stack_end as u32);
    core.set_apic_id(apic_id);
    info.cores.set(i, core);
    let ghost m0 = info.memory_map;
    if !info.memory_map.can_partition(addr, stack_end, MemoryRegionType::GuardPage) {
        return Err(BootError::MapOverflow);
    }
    match info.memory_map.partition_memory_region(addr, stack_end, MemoryRegionType::GuardPage) {
        Ok(_) => {},
        Err(e) => {
            return Err(BootError::Partition(e));
        },
    }
    let ghost mid = info.memory_map;
    assert(partitioned(m0, mid, addr, stack_end, MemoryRegionType::GuardPage));
    let ghost guard = frames_region(addr, stack_end, MemoryRegionType::GuardPage);
    assert(info.memory_map.regions().contains(guard));
    if !info.memory_map.can_partition(stack_end, stack_start, MemoryRegionType::KernelStack) {
        return Err(BootError::MapOverflow);
    }
    match info.memory_map.partition_memory_region(stack_end, stack_start, MemoryRegionType::KernelStack) {
        Ok(_) => {},
        Err(e) => {
            return Err(BootError::Partition(e));
        },
    }
    assert(info.memory_map.regions().contains(guard));
    Ok(StackPlacement { guard_start: addr, stack_end, stack_start })
}

/// Places TSS interrupt stack `i` of core `ci` in the free block at `addr` (an
/// 8 KiB guard, then 120 KiB of stack) and records it in the core's TSS.  The
/// guard and the stack are then cut out of the memory map.
pub fn setup_tss_stack(info: &mut BootInfo, ci: usize, i: usize, addr: u64) -> (r: Result<
    StackPlacement,
    BootError,
>)
    requires
        old(info).cores.wf(),
        old(info).memory_map.wf(),
        ci < MAX_CORES,
        i < TSS_STACKS_PER_CPU,
        addr + TSS_GUARD_SIZE + TSS_STACK_SIZE <= u32::MAX,
    ensures
        final(info).cores.wf(),
        final(info).memory_map.wf(),
        final(info).cores.count() == old(info).cores.count(),
        final(info).cores.booted() == old(info).cores.booted(),
        r matches Err(e) ==> e is Partition || e is MapOverflow,
        forall|x: MemoryRegion|
            old(info).memory_map.regions().contains(x) && !usable_type(x.region_type)
                ==> #[trigger] final(info).memory_map.regions().contains(x),
        final(info).cores.slots().len() == MAX_CORES,
        forall|j: int| 0 <= j < MAX_CORES && j != ci ==> #[trigger] final(info).cores.slots()[j] == old(info).cores.slots()[j],
        final(info).cores.slots()[ci as int].tss_view().starts() == old(info).cores.slots()[ci as int].tss_view().starts().update(
            i as int,
            (addr + TSS_GUARD_SIZE + TSS_STACK_SIZE) as u32,
        ),
        final(info).cores.slots()[ci as int].tss_view().ends() == old(info).cores.slots()[ci as int].tss_view().ends().update(
            i as int,
            (addr + TSS_GUARD_SIZE) as u32,
        ),
        final(info).cores.slots()[ci as int].stack_start() == old(info).cores.slots()[ci as int].stack_start(),
        final(info).cores.slots()[ci as int].stack_end() == old(info).cores.slots()[ci as int].stack_end(),
        final(info).cores.slots()[ci as int].apic() == old(info).cores.slots()[ci as int].apic(),
        !old(info).memory_map.partition_fits(addr, (addr + TSS_GUARD_SIZE) as u64, MemoryRegionType::GuardPage)
            ==> r == Err::<StackPlacement, BootError>(BootError::MapOverflow),
        old(info).memory_map.partition_fits(addr, (addr + TSS_GUARD_SIZE) as u64, MemoryRegionType::GuardPage)
            ==> (old(info).memory_map.partition_check(addr, (addr + TSS_GUARD_SIZE) as u64, MemoryRegionType::GuardPage)
            matches Err(e) ==> r == Err::<StackPlacement, BootError>(BootError::Partition(e))),
        r matches Ok(p) ==> p == (StackPlacement {
            guard_start: addr,
            stack_end: (addr + TSS_GUARD_SIZE) as u64,
            stack_start: (addr + TSS_GUARD_SIZE + TSS_STACK_SIZE) as u64,
        }),
        r is Ok ==> final(info).memory_map.regions().contains(
            frames_region(addr, (addr + TSS_GUARD_SIZE) as u64, MemoryRegionType::GuardPage),
        ),
        r is Ok ==> final(info).memory_map.regions().contains(
            frames_region(
                (addr + TSS_GUARD_SIZE) as u64,
                (addr + TSS_GUARD_SIZE + TSS_STACK_SIZE) as u64,
                MemoryRegionType::TSSstack,
            ),
        ),
        placement_ok(
            old(info).memory_map,
            addr,
            (addr + TSS_GUARD_SIZE) as u64,
            (addr + TSS_GUARD_SIZE + TSS_STACK_SIZE) as u64,
            MemoryRegionType::GuardPage,
            MemoryRegionType::TSSstack,
        ) ==> r is Ok,
        r matches Err(e) ==> placement_err(
            old(info).memory_map,
            addr,
            (addr + TSS_GUARD_SIZE) as u64,
            (addr + TSS_GUARD_SIZE + TSS_STACK_SIZE) as u64,
            MemoryRegionType::GuardPage,
            MemoryRegionType::TSSstack,
            e,
        ),
        r is Ok ==> placed(
            old(info).memory_map,
            final(info).memory_map,
            addr,
            (addr + TSS_GUARD_SIZE) as u64,
            (addr + TSS_GUARD_SIZE + TSS_STACK_SIZE) as u64,
            MemoryRegionType::GuardPage,
            MemoryRegionType::TSSstack,
        ),
{
    let stack_start = addr + TSS_STACK_SIZE + TSS_GUARD_SIZE;
    let stack_end = addr + TSS_GUARD_SIZE;
    let mut core = *info.cores.get(ci);
    core.set_tss_stack(i, stack_start as u32, stack_end as u32);
    info.cores.set(ci, core);
    let ghost m0 = info.memory_map;
    if !info.memory_map.can_partition(addr, stack_end, MemoryRegionType::GuardPage) {
        return Err(BootError::MapOverflow);
    }
    match info.memory_map.partition_memory_region(addr, stack_end, MemoryRegionType::GuardPage) {
        Ok(_) => {},
        Err(e) => {
            return Err(BootError::Partition(e));
        },
    }
    let ghost mid = info.memory_map;
    assert(partitioned(m0, mid, addr, stack_end, MemoryRegionType::GuardPage));
    let ghost guard = frames_region(addr, stack_end, MemoryRegionType::GuardPage);
    assert(info.memory_map.regions().contains(guard));
    if !info.memory_map.can_partition(stack_end, stack_start, MemoryRegionType::TSSstack) {
        return Err(BootError::MapOverflow);
    }
    match info.memory_map.partition_memory_region(stack_end, stack_start, MemoryRegionType::TSSstack) {
        Ok(_) => {},
        Err(e) => {
            return Err(BootError::Partition(e));
        },
    }
    assert(info.memory_map.regions().contains(guard));
    Ok(StackPlacement { guard_start: addr, stack_end, stack_start })
}

/// `maps` runs through the maps that the stack placements in the first `k`
/// blocks lead to, one map after each placement, each block holding a guard of
/// `g` bytes, then a stack of `st` bytes of type `t2`.
pub open spec fn placement_chain(
    maps: Seq<MemoryMap>,
    blocks: Seq<u64>,
    k: int,
    g: u64,
    st: u64,
    t2: MemoryRegionType,
) -> bool {
    &&& maps.len() == k + 1
    &&& forall|j: int|
        0 <= j < k ==> #[trigger] placed(
            maps[j],
            maps[j + 1],
            blocks[j],
            (blocks[j] + g) as u64,
            (blocks[j] + g + st) as u64,
            MemoryRegionType::GuardPage,
            t2,
        )
}

/// `m` is a map that the stack placements in the first `k` blocks lead to from
/// `m0`.
pub open spec fn placement_steps(
    m0: MemoryMap,
    m: MemoryMap,
    blocks: Seq<u64>,
    k: int,
    g: u64,
    st: u64,
    t2: MemoryRegionType,
) -> bool {
    exists|maps: Seq<MemoryMap>|
        #[trigger] placement_chain(maps, blocks, k, g, st, t2) && maps[0] == m0 && maps[k] == m
}

/// No placement leads from a map to itself.
proof fn lemma_steps_start(m0: MemoryMap, blocks: Seq<u64>, g: u64, st: u64, t2: MemoryRegionType)
    ensures
        placement_steps(m0, m0, blocks, 0, g, st, t2),
{
    let maps = seq![m0];
    assert(placement_chain(maps, blocks, 0, g, st, t2));
}

/// A placement in block `k` behind `k` placements extends the steps by one.
proof fn lemma_steps_extend(
    m0: MemoryMap,
    prev: MemoryMap,
    m: MemoryMap,
    blocks: Seq<u64>,
    k: int,
    g: u64,
    st: u64,
    t2: MemoryRegionType,
)
    requires
        k >= 0,
        placement_steps(m0, prev, blocks, k, g, st, t2),
        placed(
            prev,
            m,
            blocks[k],
            (blocks[k] + g) as u64,
            (blocks[k] + g + st) as u64,
            MemoryRegionType::GuardPage,
            t2,
        ),
    ensures
        placement_steps(m0, m, blocks, k + 1, g, st, t2),
{
    let maps = choose|maps: Seq<MemoryMap>|
        #[trigger] placement_chain(maps, blocks, k, g, st, t2) && maps[0] == m0 && maps[k] == prev;
    let maps2 = maps.push(m);
    assert forall|j: int| 0 <= j < k + 1 implies #[trigger] placed(
        maps2[j],
        maps2[j + 1],
        blocks[j],
        (blocks[j] + g) as u64,
        (blocks[j] + g + st) as u64,
        MemoryRegionType::GuardPage,
        t2,
    ) by {
        if j < k {
            assert(maps2[j] == maps[j] && maps2[j + 1] == maps[j + 1]);
        } else {
            assert(maps2[j] == prev && maps2[j + 1] == m);
        }
    }
    assert(placement_chain(maps2, blocks, k + 1, g, st, t2));
}

/// Every stack placement of the first `n` blocks goes through on every map the
/// placements before it lead to from `m0`.
pub open spec fn placements_ok(
    m0: MemoryMap,
    blocks: Seq<u64>,
    n: int,
    g: u64,
    st: u64,
    t2: MemoryRegionType,
) -> bool {
    forall|i: int, m: MemoryMap|
        0 <= i < n && #[trigger] placement_steps(m0, m, blocks, i, g, st, t2) ==> placement_ok(
            m,
            blocks[i],
            (blocks[i] + g) as u64,
            (blocks[i] + g + st) as u64,
            MemoryRegionType::GuardPage,
            t2,
        )
}

/// The error `e` is that of a stack placement of one of the first `n` blocks on
/// a map the placements before it lead to from `m0`.
pub open spec fn placements_err(
    m0: MemoryMap,
    blocks: Seq<u64>,
    n: int,
    g: u64,
    st: u64,
    t2: MemoryRegionType,
    e: BootError,
) -> bool {
    exists|i: int, m: MemoryMap|
        0 <= i < n && #[trigger] placement_steps(m0, m, blocks, i, g, st, t2) && placement_err(
            m,
            blocks[i],
            (blocks[i] + g) as u64,
            (blocks[i] + g + st) as u64,
            MemoryRegionType::GuardPage,
            t2,
            e,
        )
}

/// Where the 2 MiB guard page below a core's kernel stack is mapped: its index
/// into the third-level and into the second-level table, and its address.
#[derive(Debug, Clone, Copy, PartialEq, Eq, Structural)]
pub struct GuardSlot {
    pub p3: usize,
    pub p2: usize,
    pub addr: u64,
}

/// The kernel stack of core `i` is placed in block `a`: its slot records the
/// stack behind the 2 MiB guard and the core's APIC id, and the map holds the
/// guard and the stack.
pub open spec fn core_stack_placed(info: BootInfo, i: int, a: u64, apic_id: u8) -> bool {
    &&& info.cores.slots()[i].stack_start() == a + CORE_GUARD_SIZE + CORE_STACK_SIZE
    &&& info.cores.slots()[i].stack_end() == a + CORE_GUARD_SIZE
    &&& info.cores.slots()[i].apic() == apic_id as u16
    &&& info.memory_map.regions().contains(
        frames_region(a, (a + CORE_GUARD_SIZE) as u64, MemoryRegionType::GuardPage),
    )
    &&& info.memory_map.regions().contains(
        frames_region(
            (a + CORE_GUARD_SIZE) as u64,
            (a + CORE_GUARD_SIZE + CORE_STACK_SIZE) as u64,
            MemoryRegionType::KernelStack,
        ),
    )
}

/// The guard page slot of the stack block at `a`.
pub open spec fn guard_slot(a: u64) -> GuardSlot {
    GuardSlot { p3: p3_index_of(a) as usize, p2: p2_index_of(a) as usize, addr: a }
}

/// The first `n` cores have their kernel stacks placed in the first `n` blocks,
/// with the APIC ids in order, and `guards` lists their guard page slots.
pub open spec fn core_stacks_placed(
    info: BootInfo,
    guards: Seq<GuardSlot>,
    apic_ids: Seq<u8>,
    blocks: Seq<u64>,
    n: int,
) -> bool {
    &&& guards.len() == n
    &&& forall|k: int|
        0 <= k < n ==> #[trigger] guards[k] == guard_slot(blocks[k]) && core_stack_placed(
            info,
            k,
            blocks[k],
            apic_ids[k],
        )
}

/// Places the kernel stacks of the cores the ACPI tables list, by their APIC
/// ids: core `i` gets block `blocks[i]` (see `setup_core_stack`).  Returns where
/// each core's guard page is mapped, in core order.  Fails when no core or more
/// cores than slots are listed, when the blocks run out, when a stack would
/// reach above 4 GiB, or when the memory map cannot take a guard or a stack.
pub fn place_core_stacks(info: &mut BootInfo, apic_ids: &[u8], blocks: &[u64]) -> (r: Result<
    Vec<GuardSlot>,
    BootError,
>)
    requires
        old(info).cores.wf(),
        old(info).memory_map.wf(),
        old(info).cores.count() + apic_ids.len() < u32::MAX,
    ensures
        final(info).cores.wf(),
        final(info).memory_map.wf(),
        final(info).cores.booted() == old(info).cores.booted(),
        forall|x: MemoryRegion|
            old(info).memory_map.regions().contains(x) && !usable_type(x.region_type)
                ==> #[trigger] final(info).memory_map.regions().contains(x),
        forall|j: int|
            apic_ids.len() <= j < MAX_CORES ==> #[trigger] final(info).cores.slots()[j] == old(
                info,
            ).cores.slots()[j],
        apic_ids.len() == 0 ==> r matches Err(BootError::NoCores),
        apic_ids.len() > MAX_CORES ==> r matches Err(BootError::TooManyCores),
        0 < apic_ids.len() <= MAX_CORES && blocks.len() < apic_ids.len() ==> r is Err,
        r matches Err(BootError::OutOfStackMemory) ==> blocks.len() < apic_ids.len(),
        r matches Err(BootError::StackAboveFourGig(a)) ==> exists|i: int|
            0 <= i < apic_ids.len() && i < blocks.len() && #[trigger] blocks[i] == a && a
                + CORE_GUARD_SIZE + CORE_STACK_SIZE > u32::MAX,
        r matches Ok(g) ==> final(info).cores.count() == old(info).cores.count() + apic_ids.len()
            && core_stacks_placed(*final(info), g@, apic_ids@, blocks@, apic_ids.len() as int),
        0 < apic_ids.len() <= MAX_CORES && blocks.len() >= apic_ids.len() && (forall|i: int|
            0 <= i < apic_ids.len() ==> #[trigger] blocks[i] + CORE_GUARD_SIZE + CORE_STACK_SIZE
                <= u32::MAX) && placements_ok(
            old(info).memory_map,
            blocks@,
            apic_ids.len() as int,
            CORE_GUARD_SIZE,
            CORE_STACK_SIZE,
            MemoryRegionType::KernelStack,
        ) ==> r is Ok,
        r matches Err(e) ==> ((e is MapOverflow || e is Partition) ==> placements_err(
            old(info).memory_map,
            blocks@,
            apic_ids.len() as int,
            CORE_GUARD_SIZE,
            CORE_STACK_SIZE,
            MemoryRegionType::KernelStack,
            e,
        )),
        r is Ok ==> placement_steps(
            old(info).memory_map,
            final(info).memory_map,
            blocks@,
            apic_ids.len() as int,
            CORE_GUARD_SIZE,
            CORE_STACK_SIZE,
            MemoryRegionType::KernelStack,
        ),
{
    let n = apic_ids.len();
    if n == 0 {
        return Err(BootError::NoCores);
    }
    if n > MAX_CORES {
        return Err(BootError::TooManyCores);
    }
    let mut guards: Vec<GuardSlot> = Vec::new();
    let mut i: usize = 0;
    proof {
        lemma_steps_start(
            info.memory_map,
            blocks@,
            CORE_GUARD_SIZE,
            CORE_STACK_SIZE,
            MemoryRegionType::KernelStack,
        );
    }
    while i < n
        invariant
            n == apic_ids.len(),
            0 < n <= MAX_CORES,
            i <= n,
            info.cores.wf(),
            info.memory_map.wf(),
            info.cores.count() == old(info).cores.count() + i,
            old(info).cores.count() + apic_ids.len() < u32::MAX,
            info.cores.booted() == old(info).cores.booted(),
            forall|x: MemoryRegion|
                old(info).memory_map.regions().contains(x) && !usable_type(x.region_type)
                    ==> #[trigger] info.memory_map.regions().contains(x),
            forall|j: int| i <= j < MAX_CORES ==> #[trigger] info.cores.slots()[j] == old(info).cores.slots()[j],
            i <= blocks.len(),
            core_stacks_placed(*info, guards@, apic_ids@, blocks@, i as int),
            placement_steps(
                old(info).memory_map,
                info.memory_map,
                blocks@,
                i as int,
                CORE_GUARD_SIZE,
                CORE_STACK_SIZE,
                MemoryRegionType::KernelStack,
            ),
        decreases n - i,
    {
        if i >= blocks.len() {
            return Err(BootError::OutOfStackMemory);
        }
        let addr = blocks[i];
        if addr > u32::MAX as u64 - (CORE_GUARD_SIZE + CORE_STACK_SIZE) {
            return Err(BootError::StackAboveFourGig(addr));
        }
        let ghost before = *info;
        match setup_core_stack(info, i, addr, apic_ids[i]) {
            Ok(_) => {},
            Err(e) => {
                proof {
                    assert(placement_steps(
                        old(info).memory_map,
                        before.memory_map,
                        blocks@,
                        i as int,
                        CORE_GUARD_SIZE,
                        CORE_STACK_SIZE,
                        MemoryRegionType::KernelStack,
                    ));
                }
                return Err(e);
            },
        }
        proof {
            assert(placement_steps(
                old(info).memory_map,
                before.memory_map,
                blocks@,
                i as int,
                CORE_GUARD_SIZE,
                CORE_STACK_SIZE,
                MemoryRegionType::KernelStack,
            ));
            lemma_steps_extend(
                old(info).memory_map,
                before.memory_map,
                info.memory_map,
                blocks@,
                i as int,
                CORE_GUARD_SIZE,
                CORE_STACK_SIZE,
                MemoryRegionType::KernelStack,
            );
            assert forall|k: int| 0 <= k < i implies core_stack_placed(*info, k, blocks[k], apic_ids[k]) by {
                assert(guards@[k] == guard_slot(blocks[k]));
                assert(core_stack_placed(before, k, blocks[k], apic_ids[k]));
                assert(info.cores.slots()[k] == before.cores.slots()[k]);
                let a = blocks[k];
                assert(before.memory_map.regions().contains(
                    frames_region(a, (a + CORE_GUARD_SIZE) as u64, MemoryRegionType::GuardPage),
                ));
                assert(before.memory_map.regions().contains(
                    frames_region(
                        (a + CORE_GUARD_SIZE) as u64,
                        (a + CORE_GUARD_SIZE + CORE_STACK_SIZE) as u64,
                        MemoryRegionType::KernelStack,
                    ),
                ));
            }
        }
        guards.push(GuardSlot { p3: p3_index(addr), p2: p2_index(addr), addr });
        i = i + 1;
        assert(guards@[i - 1] == guard_slot(blocks[i - 1]));
    }
    Ok(guards)
}

/// Fills a first-level table that maps the 2 MiB from `addr` onwards, page by
/// page, present and writable.
pub fn fill_tss_p1_table(table: &mut PageTable, addr: u64)
    requires
        old(table).wf(),
        addr % 4096 == 0,
        addr + 512 * 4096 <= u64::MAX,
    ensures
        final(table).wf(),
        forall|k: int| 0 <= k < ENTRY_COUNT ==> (#[trigger] final(table)@[k]).value() == ((addr + k * 4096) as u64
            | (PRESENT | WRITABLE)),
{
    let flags = PageTableFlags::present().union(PageTableFlags::writable());
    let mut k: usize = 0;
    while k < ENTRY_COUNT
        invariant
            table.wf(),
            addr % 4096 == 0,
            addr + 512 * 4096 <= u64::MAX,
            flags.value() == PRESENT | WRITABLE,
            k <= ENTRY_COUNT,
            forall|j: int| 0 <= j < k ==> (#[trigger] table@[j]).value() == ((addr + j * 4096) as u64 | (
            PRESENT | WRITABLE)),
        decreases ENTRY_COUNT - k,
    {
        let a = addr + k as u64 * 4096;
        assert(a % 4096 == 0);
        let mut entry = PageTableEntry::new();
        entry.set_addr(a, flags);
        table.set(k, entry);
        k = k + 1;
    }
}

/// Maps the two guard pages of the TSS stack block at `addr` in its first-level
/// table: present and not executable (so not writable).
pub fn map_tss_guard(table: &mut PageTable, addr: u64)
    requires
        old(table).wf(),
        addr % 4096 == 0,
        addr + TSS_GUARD_SIZE <= u64::MAX,
        p1_index_of(addr) + 1 < ENTRY_COUNT,
    ensures
        final(table).wf(),
        final(table)@.len() == ENTRY_COUNT,
        forall|k: int|
            0 <= k < ENTRY_COUNT && k != p1_index_of(addr) && k != p1_index_of(addr) + 1 ==> #[trigger] final(table)@[k]
                == old(table)@[k],
        final(table)@[p1_index_of(addr)].value() == addr | (PRESENT | NO_EXECUTE),
        final(table)@[p1_index_of(addr) + 1].value() == (addr + 4096) as u64 | (PRESENT | NO_EXECUTE),
{
    let flags = PageTableFlags::present().union(PageTableFlags::no_execute());
    let start_index = p1_index(addr);
    let mut first = PageTableEntry::new();
    first.set_addr(addr, flags);
    table.set(start_index, first);
    let mut second = PageTableEntry::new();
    second.set_addr(addr + 4096, flags);
    table.set(start_index + 1, second);
}

/// The entries of the first-level table that maps the 2 MiB from `first`
/// onwards, present and writable, after the guard pages of the TSS stack blocks
/// `guards` were marked in it, in order (see `map_tss_guard`).
pub open spec fn tss_table_entries(first: u64, guards: Seq<u64>) -> Seq<u64>
    decreases guards.len(),
{
    if guards.len() == 0 {
        Seq::new(ENTRY_COUNT as nat, |k: int| ((first + k * 4096) as u64 | (PRESENT | WRITABLE)))
    } else {
        let a = guards.last();
        let e = tss_table_entries(first, guards.drop_last());
        if p1_index_of(a) + 1 < ENTRY_COUNT {
            e.update(p1_index_of(a), a | (PRESENT | NO_EXECUTE)).update(
                p1_index_of(a) + 1,
                (a + 4096) as u64 | (PRESENT | NO_EXECUTE),
            )
        } else {
            e
        }
    }
}

/// The entries of a TSS first-level table fill the table.
proof fn lemma_tss_table_len(first: u64, guards: Seq<u64>)
    ensures
        tss_table_entries(first, guards).len() == ENTRY_COUNT,
    decreases guards.len(),
{
    if guards.len() > 0 {
        lemma_tss_table_len(first, guards.drop_last());
    }
}

/// TSS stack `i` of core `ci` lies in block `8 * ci + i`: the core's TSS
/// records the stack behind an 8 KiB guard, and the map holds the guard and the
/// stack.
pub open spec fn tss_stack_placed(info: BootInfo, blocks: Seq<u64>, ci: int, i: int) -> bool {
    let a = blocks[ci * 8 + i];
    &&& info.cores.slots()[ci].tss_view().starts()[i] == a + TSS_GUARD_SIZE + TSS_STACK_SIZE
    &&& info.cores.slots()[ci].tss_view().ends()[i] == a + TSS_GUARD_SIZE
    &&& info.memory_map.regions().contains(frames_region(a, (a + TSS_GUARD_SIZE) as u64, MemoryRegionType::GuardPage))
    &&& info.memory_map.regions().contains(
        frames_region(
            (a + TSS_GUARD_SIZE) as u64,
            (a + TSS_GUARD_SIZE + TSS_STACK_SIZE) as u64,
            MemoryRegionType::TSSstack,
        ),
    )
}

/// All eight TSS stacks of core `ci` lie in the blocks `8 * ci` to `8 * ci + 7`.
pub open spec fn tss_stacks_placed(info: BootInfo, blocks: Seq<u64>, ci: int) -> bool {
    forall|i: int| 0 <= i < TSS_STACKS_PER_CPU ==> #[trigger] tss_stack_placed(info, blocks, ci, i)
}

/// Placing stack `i` of core `ci` keeps the stacks placed before it and adds
/// its own.
proof fn lemma_tss_step(before: BootInfo, after: BootInfo, blocks: Seq<u64>, ci: int, i: int)
    requires
        0 <= i,
        forall|k: int| 0 <= k < i ==> #[trigger] tss_stack_placed(before, blocks, ci, k),
        after.cores.slots()[ci].tss_view().starts() == before.cores.slots()[ci].tss_view().starts().update(
            i,
            (blocks[ci * 8 + i] + TSS_GUARD_SIZE + TSS_STACK_SIZE) as u32,
        ),
        after.cores.slots()[ci].tss_view().ends() == before.cores.slots()[ci].tss_view().ends().update(
            i,
            (blocks[ci * 8 + i] + TSS_GUARD_SIZE) as u32,
        ),
        i < TSS_STACKS_PER_CPU,
        blocks[ci * 8 + i] + TSS_GUARD_SIZE + TSS_STACK_SIZE <= u32::MAX,
        after.memory_map.regions().contains(
            frames_region(blocks[ci * 8 + i], (blocks[ci * 8 + i] + TSS_GUARD_SIZE) as u64, MemoryRegionType::GuardPage),
        ),
        after.memory_map.regions().contains(
            frames_region(
                (blocks[ci * 8 + i] + TSS_GUARD_SIZE) as u64,
                (blocks[ci * 8 + i] + TSS_GUARD_SIZE + TSS_STACK_SIZE) as u64,
                MemoryRegionType::TSSstack,
            ),
        ),
        forall|x: MemoryRegion|
            before.memory_map.regions().contains(x) && !usable_type(x.region_type)
                ==> #[trigger] after.memory_map.regions().contains(x),
    ensures
        forall|k: int| 0 <= k <= i ==> #[trigger] tss_stack_placed(after, blocks, ci, k),
{
    before.cores.slots()[ci].tss_view().lemma_stack_count();
    assert forall|k: int| 0 <= k <= i implies #[trigger] tss_stack_placed(after, blocks, ci, k) by {
        if k < i {
            assert(tss_stack_placed(before, blocks, ci, k));
            let a = blocks[ci * 8 + k];
            assert(before.memory_map.regions().contains(
                frames_region(a, (a + TSS_GUARD_SIZE) as u64, MemoryRegionType::GuardPage),
            ));
            assert(before.memory_map.regions().contains(
                frames_region(
                    (a + TSS_GUARD_SIZE) as u64,
                    (a + TSS_GUARD_SIZE + TSS_STACK_SIZE) as u64,
                    MemoryRegionType::TSSstack,
                ),
            ));
        }
    }
}

/// The TSS stacks of a core stay placed while its slot is kept and the map
/// keeps its guards and stacks.
proof fn lemma_tss_placed_kept(before: BootInfo, after: BootInfo, blocks: Seq<u64>, c: int)
    requires
        tss_stacks_placed(before, blocks, c),
        after.cores.slots()[c] == before.cores.slots()[c],
        forall|x: MemoryRegion|
            before.memory_map.regions().contains(x) && !usable_type(x.region_type)
                ==> #[trigger] after.memory_map.regions().contains(x),
    ensures
        tss_stacks_placed(after, blocks, c),
{
    assert forall|i: int| 0 <= i < TSS_STACKS_PER_CPU implies #[trigger] tss_stack_placed(after, blocks, c, i) by {
        assert(tss_stack_placed(before, blocks, c, i));
        let a = blocks[c * 8 + i];
        assert(before.memory_map.regions().contains(
            frames_region(a, (a + TSS_GUARD_SIZE) as u64, MemoryRegionType::GuardPage),
        ));
        assert(before.memory_map.regions().contains(
            frames_region(
                (a + TSS_GUARD_SIZE) as u64,
                (a + TSS_GUARD_SIZE + TSS_STACK_SIZE) as u64,
                MemoryRegionType::TSSstack,
            ),
        ));
    }
}

/// Between `before` and `after` every core keeps its kernel stack and APIC id,
/// and the slots from `from` on are kept whole.
pub open spec fn core_stacks_kept(before: BootInfo, after: BootInfo, from: int) -> bool {
    &&& after.cores.slots().len() == before.cores.slots().len()
    &&& forall|j: int|
        0 <= j < before.cores.slots().len() ==> {
            &&& #[trigger] after.cores.slots()[j].stack_start() == before.cores.slots()[j].stack_start()
            &&& after.cores.slots()[j].stack_end() == before.cores.slots()[j].stack_end()
            &&& after.cores.slots()[j].apic() == before.cores.slots()[j].apic()
        }
    &&& forall|j: int|
        #![trigger after.cores.slots()[j]]
        from <= j < before.cores.slots().len() ==> after.cores.slots()[j] == before.cores.slots()[j]
}

/// Keeping the slots from `a` on keeps those from any later `b` on.
#[verifier::spinoff_prover]
proof fn lemma_kept_from_later(before: BootInfo, after: BootInfo, a: int, b: int)
    requires
        core_stacks_kept(before, after, a),
        a <= b,
    ensures
        core_stacks_kept(before, after, b),
{
    assert(after.cores.slots().len() == before.cores.slots().len());
    assert forall|j: int| #![trigger after.cores.slots()[j]] b <= j < before.cores.slots().len() implies after.cores.slots()[j]
        == before.cores.slots()[j] by {
        assert(a <= j);
        assert(a <= j < before.cores.slots().len());
    }
}

/// The number of cores, of `n`, whose TSS stacks the table of pair `p` maps.
pub open spec fn pair_cores(n: int, p: int) -> int {
    if 2 * p + 1 < n {
        2
    } else {
        1
    }
}

/// A first-level table for the TSS stacks of a pair of cores: the table, the
/// address it is stored at, and the indices of the second-level entry that
/// points to it.
pub struct TssTable {
    pub at: u64,
    pub p3: usize,
    pub p2: usize,
    pub table: PageTable,
}

/// Table `t` is the one of pair `p` of the `n` cores, stored at `at`.
pub open spec fn tss_table_made(t: TssTable, blocks: Seq<u64>, n: int, p: int, at: int) -> bool {
    let first = blocks[16 * p];
    &&& t.at == at
    &&& t.p3 == p3_index_of(first)
    &&& t.p2 == p2_index_of(first)
    &&& t.table.wf()
    &&& forall|k: int|
        0 <= k < ENTRY_COUNT ==> #[trigger] t.table@[k].value() == tss_table_entries(
            first,
            blocks.subrange(16 * p, 16 * p + 8 * pair_cores(n, p)),
        )[k]
}

/// Places the eight TSS stacks of each found core, core `ci` in blocks `8 * ci`
/// to `8 * ci + 7` (see `setup_tss_stack`), and makes for every pair of cores a
/// first-level table that maps the 2 MiB from the pair's first block, with the
/// stacks' guard pages marked.  The tables are taken from `p1_tables` in order.
/// Fails when the blocks or the tables run out, when a stack would reach above
/// 4 GiB, when a pair's first block is not 2 MiB aligned or a block not page
/// aligned, when a block's guard pages cross its table, or when the memory map
/// cannot take a guard or a stack.
pub fn place_tss_stacks(info: &mut BootInfo, blocks: &[u64], p1_tables: &mut PageTableAllocator) -> (r: Result<
    Vec<TssTable>,
    BootError,
>)
    requires
        old(info).cores.wf(),
        old(info).memory_map.wf(),
        old(info).cores.count() <= MAX_CORES,
        old(p1_tables).next_addr() <= isize::MAX - 15,
        old(p1_tables).end() + PAGE_TABLE_SIZE <= isize::MAX - 15,
    ensures
        final(info).cores.wf(),
        final(info).memory_map.wf(),
        final(info).cores.count() == old(info).cores.count(),
        final(info).cores.booted() == old(info).cores.booted(),
        final(p1_tables).start() == old(p1_tables).start(),
        final(p1_tables).end() == old(p1_tables).end(),
        forall|x: MemoryRegion|
            old(info).memory_map.regions().contains(x) && !usable_type(x.region_type)
                ==> #[trigger] final(info).memory_map.regions().contains(x),
        core_stacks_kept(*old(info), *final(info), old(info).cores.count() as int),
        blocks.len() < 8 * old(info).cores.count() ==> r is Err,
        r matches Err(BootError::OutOfStackMemory) ==> blocks.len() < 8 * old(info).cores.count(),
        r matches Err(BootError::StackAboveFourGig(a)) ==> exists|i: int|
            0 <= i < blocks.len() && i < 8 * old(info).cores.count() && #[trigger] blocks[i] == a && a
                + TSS_GUARD_SIZE + TSS_STACK_SIZE > u32::MAX,
        r matches Err(BootError::Misaligned(a)) ==> exists|i: int|
            0 <= i < blocks.len() && i < 8 * old(info).cores.count() && #[trigger] blocks[i] == a && (a
                % PAGE_SIZE != 0 || (i % 16 == 0 && a % TWO_MEG != 0)),
        r matches Err(BootError::GuardCrossesTable(a)) ==> exists|i: int|
            0 <= i < blocks.len() && i < 8 * old(info).cores.count() && #[trigger] blocks[i] == a
                && p1_index_of(a) + 1 >= ENTRY_COUNT,
        r matches Err(BootError::OutOfPageTables) ==> old(p1_tables).next_addr() + PAGE_TABLE_SIZE * ((
        old(info).cores.count() + 1) / 2 - 1) > old(p1_tables).end(),
        placements_ok(
            old(info).memory_map,
            blocks@,
            8 * old(info).cores.count(),
            TSS_GUARD_SIZE,
            TSS_STACK_SIZE,
            MemoryRegionType::TSSstack,
        ) ==> !(r matches Err(e) && (e is MapOverflow || e is Partition)),
        r matches Err(e) ==> ((e is MapOverflow || e is Partition) ==> placements_err(
            old(info).memory_map,
            blocks@,
            8 * old(info).cores.count(),
            TSS_GUARD_SIZE,
            TSS_STACK_SIZE,
            MemoryRegionType::TSSstack,
            e,
        )),
        r is Ok ==> placement_steps(
            old(info).memory_map,
            final(info).memory_map,
            blocks@,
            8 * old(info).cores.count(),
            TSS_GUARD_SIZE,
            TSS_STACK_SIZE,
            MemoryRegionType::TSSstack,
        ),
        r matches Ok(t) ==> {
            &&& t@.len() == (old(info).cores.count() + 1) / 2
            &&& final(p1_tables).index() == old(p1_tables).index() + t@.len()
            &&& forall|ci: int|
                0 <= ci < old(info).cores.count() ==> #[trigger] tss_stacks_placed(*final(info), blocks@, ci)
            &&& forall|p: int|
                0 <= p < t@.len() ==> #[trigger] tss_table_made(
                    t@[p],
                    blocks@,
                    old(info).cores.count() as int,
                    p,
                    old(p1_tables).next_addr() + PAGE_TABLE_SIZE * p,
                )
        },
{
    let n = info.cores.num_cores() as usize;
    let mut tables: Vec<TssTable> = Vec::new();
    let mut cur_at: u64 = 0;
    let mut cur_first: u64 = 0;
    let mut cur_table = PageTable::new();
    let mut ci: usize = 0;
    proof {
        lemma_steps_start(info.memory_map, blocks@, TSS_GUARD_SIZE, TSS_STACK_SIZE, MemoryRegionType::TSSstack);
    }
    while ci < n
        invariant
            placement_steps(
                old(info).memory_map,
                info.memory_map,
                blocks@,
                8 * ci,
                TSS_GUARD_SIZE,
                TSS_STACK_SIZE,
                MemoryRegionType::TSSstack,
            ),
            n == old(info).cores.count(),
            n <= MAX_CORES,
            ci <= n,
            info.cores.wf(),
            info.memory_map.wf(),
            info.cores.count() == old(info).cores.count(),
            info.cores.booted() == old(info).cores.booted(),
            p1_tables.start() == old(p1_tables).start(),
            p1_tables.end() == old(p1_tables).end(),
            old(p1_tables).end() + PAGE_TABLE_SIZE <= isize::MAX - 15,
            p1_tables.index() == old(p1_tables).index() + (ci + 1) / 2,
            p1_tables.next_addr() <= isize::MAX - 15,
            cur_table.wf(),
            forall|x: MemoryRegion|
                old(info).memory_map.regions().contains(x) && !usable_type(x.region_type)
                    ==> #[trigger] info.memory_map.regions().contains(x),
            core_stacks_kept(*old(info), *info, ci as int),
            8 * ci <= blocks.len(),
            forall|c: int| 0 <= c < ci ==> #[trigger] tss_stacks_placed(*info, blocks@, c),
            tables@.len() == (if ci == 0 { 0 } else { (ci - 1) / 2 }),
            forall|p: int|
                0 <= p < tables@.len() ==> #[trigger] tss_table_made(
                    tables@[p],
                    blocks@,
                    n as int,
                    p,
                    old(p1_tables).next_addr() + PAGE_TABLE_SIZE * p,
                ),
            ci > 0 ==> {
                let q = (ci - 1) / 2;
                &&& cur_at == old(p1_tables).next_addr() + PAGE_TABLE_SIZE * q
                &&& cur_first == blocks[16 * q]
                &&& forall|k: int|
                    0 <= k < ENTRY_COUNT ==> #[trigger] cur_table@[k].value() == tss_table_entries(
                        cur_first,
                        blocks@.subrange(16 * q, 8 * ci),
                    )[k]
            },
        decreases n - ci,
    {
        if blocks.len() - 8 * ci < 8 {
            return Err(BootError::OutOfStackMemory);
        }
        let first = blocks[8 * ci];
        if ci % 2 == 0 {
            if ci > 0 {
                proof {
                    let q = (ci - 1) / 2;
                    assert(16 * q + 8 * pair_cores(n as int, q) == 8 * ci);
                }
                tables.push(TssTable { at: cur_at, p3: p3_index(cur_first), p2: p2_index(cur_first), table: cur_table });
            }
            let at = match p1_tables.next() {
                Some(a) => a as u64,
                None => {
                    return Err(BootError::OutOfPageTables);
                },
            };
            if first % TWO_MEG != 0 {
                return Err(BootError::Misaligned(first));
            }
            if first > u32::MAX as u64 - (TSS_GUARD_SIZE + TSS_STACK_SIZE) {
                return Err(BootError::StackAboveFourGig(first));
            }
            let mut table = PageTable::new();
            fill_tss_p1_table(&mut table, first);
            cur_table = table;
            cur_at = at;
            cur_first = first;
            proof {
                assert(blocks@.subrange(8 * ci as int, 8 * ci as int) =~= Seq::<u64>::empty());
            }
        }
        proof {
            lemma_kept_from_later(*old(info), *info, ci as int, ci + 1);
        }
        let mut i: usize = 0;
        while i < TSS_STACKS_PER_CPU
            invariant
                n == old(info).cores.count(),
                ci < n,
                n <= MAX_CORES,
                i <= TSS_STACKS_PER_CPU,
                8 * ci + 8 <= blocks.len(),
                p1_tables.start() == old(p1_tables).start(),
                p1_tables.end() == old(p1_tables).end(),
                p1_tables.index() == old(p1_tables).index() + (ci + 2) / 2,
                p1_tables.next_addr() <= isize::MAX - 15,
                old(p1_tables).end() + PAGE_TABLE_SIZE <= isize::MAX - 15,
                tables@.len() == ci / 2,
                forall|p: int|
                    0 <= p < tables@.len() ==> #[trigger] tss_table_made(
                        tables@[p],
                        blocks@,
                        n as int,
                        p,
                        old(p1_tables).next_addr() + PAGE_TABLE_SIZE * p,
                    ),
                cur_at == old(p1_tables).next_addr() + PAGE_TABLE_SIZE * (ci as int / 2),
                cur_first == blocks@[16 * (ci as int / 2)],
                info.cores.wf(),
                info.memory_map.wf(),
                info.cores.count() == old(info).cores.count(),
                info.cores.booted() == old(info).cores.booted(),
                cur_table.wf(),
                forall|x: MemoryRegion|
                    old(info).memory_map.regions().contains(x) && !usable_type(x.region_type)
                        ==> #[trigger] info.memory_map.regions().contains(x),
                core_stacks_kept(*old(info), *info, ci + 1),
                placement_steps(
                    old(info).memory_map,
                    info.memory_map,
                    blocks@,
                    8 * ci + i,
                    TSS_GUARD_SIZE,
                    TSS_STACK_SIZE,
                    MemoryRegionType::TSSstack,
                ),
                forall|c: int| 0 <= c < ci ==> #[trigger] tss_stacks_placed(*info, blocks@, c),
                forall|k: int| 0 <= k < i ==> #[trigger] tss_stack_placed(*info, blocks@, ci as int, k),
                forall|k: int|
                    0 <= k < ENTRY_COUNT ==> #[trigger] cur_table@[k].value() == tss_table_entries(
                        cur_first,
                        blocks@.subrange(16 * (ci as int / 2), 8 * ci + i),
                    )[k],
            decreases TSS_STACKS_PER_CPU - i,
        {
            let addr = blocks[8 * ci + i];
            if addr > u32::MAX as u64 - (TSS_GUARD_SIZE + TSS_STACK_SIZE) {
                return Err(BootError::StackAboveFourGig(addr));
            }
            if addr % PAGE_SIZE != 0 {
                return Err(BootError::Misaligned(addr));
            }
            let ghost before = *info;
            match setup_tss_stack(info, ci, i, addr) {
                Ok(_) => {},
                Err(e) => {
                    proof {
                        assert(placement_steps(
                            old(info).memory_map,
                            before.memory_map,
                            blocks@,
                            8 * ci + i,
                            TSS_GUARD_SIZE,
                            TSS_STACK_SIZE,
                            MemoryRegionType::TSSstack,
                        ));
                    }
                    return Err(e);
                },
            }
            proof {
                assert(placement_steps(
                    old(info).memory_map,
                    before.memory_map,
                    blocks@,
                    8 * ci + i,
                    TSS_GUARD_SIZE,
                    TSS_STACK_SIZE,
                    MemoryRegionType::TSSstack,
                ));
                lemma_steps_extend(
                    old(info).memory_map,
                    before.memory_map,
                    info.memory_map,
                    blocks@,
                    8 * ci + i,
                    TSS_GUARD_SIZE,
                    TSS_STACK_SIZE,
                    MemoryRegionType::TSSstack,
                );
            }
            if p1_index(addr) + 1 >= ENTRY_COUNT {
                return Err(BootError::GuardCrossesTable(addr));
            }
            let ghost tbefore = cur_table@;
            map_tss_guard(&mut cur_table, addr);
            proof {
                let g = blocks@.subrange(16 * (ci as int / 2), 8 * ci + i + 1);
                assert(g.drop_last() =~= blocks@.subrange(16 * (ci as int / 2), 8 * ci + i));
                assert(g.last() == addr);
                lemma_tss_table_len(cur_first, g.drop_last());
                let e0 = tss_table_entries(cur_first, g.drop_last());
                let pi = p1_index_of(addr);
                assert(tss_table_entries(cur_first, g) == e0.update(pi, addr | (PRESENT | NO_EXECUTE)).update(
                    pi + 1,
                    (addr + 4096) as u64 | (PRESENT | NO_EXECUTE),
                ));
                assert forall|k: int| 0 <= k < ENTRY_COUNT implies #[trigger] cur_table@[k].value()
                    == tss_table_entries(cur_first, g)[k] by {
                    if k != pi && k != pi + 1 {
                        assert(cur_table@[k] == tbefore[k]);
                    }
                }
                assert forall|c: int| 0 <= c < ci implies #[trigger] tss_stacks_placed(*info, blocks@, c) by {
                    lemma_tss_placed_kept(before, *info, blocks@, c);
                }
                lemma_tss_step(before, *info, blocks@, ci as int, i as int);
            }
            i = i + 1;
        }
        ci = ci + 1;
        assert(tss_stacks_placed(*info, blocks@, ci - 1));
    }
    if n > 0 {
        proof {
            let q = (n - 1) / 2;
            assert(16 * q + 8 * pair_cores(n as int, q) == 8 * n);
        }
        tables.push(TssTable { at: cur_at, p3: p3_index(cur_first), p2: p2_index(cur_first), table: cur_table });
    }
    Ok(tables)
}

/// The identification bytes the kernel image must start with: an ELF file for a
/// 64-bit little-endian machine, version one.
pub open spec fn elf_magic() -> Seq<u8> {
    seq![0x7fu8, 0x45, 0x4c, 0x46, 0x02, 0x01, 0x01, 0, 0, 0, 0, 0, 0, 0, 0, 0]
}

/// Identification byte `i` of `elf_magic`.
fn elf_magic_byte(i: usize) -> (r: u8)
    requires
        i < 16,
    ensures
        r == elf_magic()[i as int],
{
    if i == 0 {
        0x7f
    } else if i == 1 {
        0x45
    } else if i == 2 {
        0x4c
    } else if i == 3 {
        0x46
    } else if i == 4 {
        0x02
    } else if i == 5 || i == 6 {
        0x01
    } else {
        0
    }
}

/// The start of the kernel image's ELF header.
#[derive(Clone, Copy, Debug)]
pub struct Elf32Header {
    pub e_ident: [u8; 16],
    pub e_type: u16,
    pub e_machine: u16,
    pub e_version: u32,
    pub e_entry: u32,
}

/// The kernel image does not start with the expected identification bytes; the
/// bytes it starts with.
#[derive(Debug)]
pub struct InvalidElfMagic {
    pub e_ident: [u8; 16],
}

impl Elf32Header {
    /// Reads the header from the first 28 bytes of the image.
    pub fn from_bytes(b: &[u8]) -> (r: Elf32Header)
        requires
            b@.len() >= 28,
        ensures
            r.e_ident@ == b@.take(16),
            r.e_type == le_u16(b@, 16),
            r.e_machine == le_u16(b@, 18),
            r.e_version == le_u32(b@, 20),
            r.e_entry == le_u32(b@, 24),
    {
        let mut ident = [0u8; 16];
        let mut i: usize = 0;
        while i < 16
            invariant
                b@.len() >= 28,
                i <= 16,
                ident@.len() == 16,
                forall|j: int| 0 <= j < i ==> ident@[j] == b@[j],
            decreases 16 - i,
        {
            ident[i] = b[i];
            i = i + 1;
        }
        assert(ident@ =~= b@.take(16));
        Elf32Header {
            e_ident: ident,
            e_type: read_u16(b, 16),
            e_machine: read_u16(b, 18),
            e_version: read_u32(b, 20),
            e_entry: read_u32(b, 24),
        }
    }

    /// Whether the identification bytes are the expected ones.
    pub fn has_valid_magic(&self) -> (r: bool)
        ensures
            r == (self.e_ident@ == elf_magic()),
    {
        let mut i: usize = 0;
        while i < 16
            invariant
                i <= 16,
                self.e_ident@.len() == 16,
                forall|j: int| 0 <= j < i ==> self.e_ident@[j] == elf_magic()[j],
            decreases 16 - i,
        {
            if self.e_ident[i] != elf_magic_byte(i) {
                return false;
            }
            i = i + 1;
        }
        assert(self.e_ident@ =~= elf_magic());
        true
    }
}

/// Reads the kernel image's ELF header and checks its identification bytes.
pub fn get_kernel_header(image: &[u8]) -> (r: Result<Elf32Header, InvalidElfMagic>)
    requires
        image@.len() >= 28,
    ensures
        image@.take(16) == elf_magic() ==> (r matches Ok(h) && h.e_ident@ == image@.take(16)
            && h.e_entry == le_u32(image@, 24) && h.e_type == le_u16(image@, 16) && h.e_machine
            == le_u16(image@, 18) && h.e_version == le_u32(image@, 20)),
        image@.take(16) != elf_magic() ==> (r matches Err(e) && e.e_ident@ == image@.take(16)),
{
    let header = Elf32Header::from_bytes(image);
    if !header.has_valid_magic() {
        return Err(InvalidElfMagic { e_ident: header.e_ident });
    }
    Ok(header)
}

/// The stack pointer the bootstrap core starts the kernel with: 8 bytes below the
/// start of core 0's kernel stack, or `None` when the core has no stack.
pub fn bsp_stack_pointer(core: &Core) -> (r: Option<u32>)
    requires
        core.stack_start() == 0 || core.stack_start() >= 8,
    ensures
        core.stack_start() == 0 ==> r is None,
        core.stack_start() != 0 ==> r == Some((core.stack_start() - 8) as u32),
{
    match core.get_stack_start() {
        Some(start) => Some(start - 8),
        None => None,
    }
}

/// The value a multiboot2 compliant bootloader passes in `eax`.
pub const MULTIBOOT2_BOOTLOADER_MAGIC: u32 = 0x36d7_6289;

/// The processor features the bootloader needs.
#[derive(Debug, Clone, Copy, PartialEq, Eq, Structural)]
pub struct CpuFeatures {
    pub msr: bool,
    pub pae: bool,
    pub apic: bool,
    pub pat: bool,
    pub long_mode: bool,
    pub execute_disable: bool,
}

/// Why the bootloader cannot run on this machine.
#[derive(Debug, Clone, Copy, PartialEq, Eq, Structural)]
pub enum CpuError {
    /// The loader that started us is not multiboot2 compliant; the magic it passed.
    BadMagic(u32),
    /// The processor is neither from Intel nor from AMD.
    UnknownVendor,
    NoMsr,
    NoPae,
    NoApic,
    NoPat,
    NoLongMode,
    NoExecuteDisable,
}

/// `GenuineIntel`.
pub open spec fn intel_vendor() -> Seq<u8> {
    seq![71u8, 101, 110, 117, 105, 110, 101, 73, 110, 116, 101, 108]
}

/// `AuthenticAMD`.
pub open spec fn amd_vendor() -> Seq<u8> {
    seq![65u8, 117, 116, 104, 101, 110, 116, 105, 99, 65, 77, 68]
}

fn bytes_equal(a: &[u8], b: &[u8]) -> (r: bool)
    ensures
        r == (a@ == b@),
{
    if a.len() != b.len() {
        return false;
    }
    let mut i: usize = 0;
    while i < a.len()
        invariant
            a@.len() == b@.len(),
            i <= a@.len(),
            forall|j: int| 0 <= j < i ==> a@[j] == b@[j],
        decreases a@.len() - i,
    {
        if a[i] != b[i] {
            return false;
        }
        i = i + 1;
    }
    assert(a@ =~= b@);
    true
}

/// Checks, in this order, the multiboot2 magic, the processor vendor (when the
/// processor reports one) and the features: MSRs, PAE, the APIC, page attributes,
/// long mode and the no-execute bit.
pub fn check_cpu(magic: u32, vendor: Option<&[u8]>, f: CpuFeatures) -> (r: Result<(), CpuError>)
    ensures
        magic != MULTIBOOT2_BOOTLOADER_MAGIC ==> r == Err::<(), CpuError>(CpuError::BadMagic(magic)),
        magic == MULTIBOOT2_BOOTLOADER_MAGIC && (vendor matches Some(v) && v@ != intel_vendor() && v@
            != amd_vendor()) ==> r == Err::<(), CpuError>(CpuError::UnknownVendor),
        r is Ok <==> magic == MULTIBOOT2_BOOTLOADER_MAGIC && !(vendor matches Some(v) && v@
            != intel_vendor() && v@ != amd_vendor()) && f.msr && f.pae && f.apic && f.pat
            && f.long_mode && f.execute_disable,
        magic == MULTIBOOT2_BOOTLOADER_MAGIC && !(vendor matches Some(v) && v@ != intel_vendor() && v@
            != amd_vendor()) ==> {
            &&& !f.msr ==> r == Err::<(), CpuError>(CpuError::NoMsr)
            &&& f.msr && !f.pae ==> r == Err::<(), CpuError>(CpuError::NoPae)
            &&& f.msr && f.pae && !f.apic ==> r == Err::<(), CpuError>(CpuError::NoApic)
            &&& f.msr && f.pae && f.apic && !f.pat ==> r == Err::<(), CpuError>(CpuError::NoPat)
            &&& f.msr && f.pae && f.apic && f.pat && !f.long_mode ==> r == Err::<(), CpuError>(
                CpuError::NoLongMode,
            )
            &&& f.msr && f.pae && f.apic && f.pat && f.long_mode && !f.execute_disable ==> r == Err::<
                (),
                CpuError,
            >(CpuError::NoExecuteDisable)
        },
{
    if magic != MULTIBOOT2_BOOTLOADER_MAGIC {
        return Err(CpuError::BadMagic(magic));
    }
    match vendor {
        Some(v) => {
            let intel: [u8; 12] = [71, 101, 110, 117, 105, 110, 101, 73, 110, 116, 101, 108];
            let amd: [u8; 12] = [65, 117, 116, 104, 101, 110, 116, 105, 99, 65, 77, 68];
            assert(intel@ =~= intel_vendor());
            assert(amd@ =~= amd_vendor());
            if !(bytes_equal(v, &intel) || bytes_equal(v, &amd)) {
                return Err(CpuError::UnknownVendor);
            }
        },
        None => {},
    }
    if !f.msr {
        return Err(CpuError::NoMsr);
    }
    if !f.pae {
        return Err(CpuError::NoPae);
    }
    if !f.apic {
        return Err(CpuError::NoApic);
    }
    if !f.pat {
        return Err(CpuError::NoPat);
    }
    if !f.long_mode {
        return Err(CpuError::NoLongMode);
    }
    if !f.execute_disable {
        return Err(CpuError::NoExecuteDisable);
    }
    Ok(())
}

/// Checks one address of the loaded image against one region of the map: the
/// address must be page aligned, and a region that contains it must be usable.
pub fn check_loaded_address(region: &MemoryRegion, addr: u64) -> (r: Result<(), ImageError>)
    requires
        addrs_fit(region.range),
    ensures
        addr % PAGE_SIZE != 0 ==> r == Err::<(), ImageError>(ImageError::NotPageAligned(addr)),
        addr % PAGE_SIZE == 0 && range_contains(region.range, addr as int) && region.region_type
            != MemoryRegionType::Usable ==> r == Err::<(), ImageError>(ImageError::NotUsable(addr, *region)),
        addr % PAGE_SIZE == 0 && !(range_contains(region.range, addr as int) && region.region_type
            != MemoryRegionType::Usable) ==> r is Ok,
{
    if addr % PAGE_SIZE != 0 {
        return Err(ImageError::NotPageAligned(addr));
    }
    if region.range.intersects(addr) && region.region_type != MemoryRegionType::Usable {
        return Err(ImageError::NotUsable(addr, *region));
    }
    Ok(())
}

} // verus!

//! The physical memory map that the bootloader hands to the kernel.
//!
//! The map holds a fixed number of region slots.  The regions in use stand
//! in front (`next_entry_index` of them); every slot behind them holds a
//! region with an empty frame range.
use vstd::prelude::*;
use vstd::multiset::*;

verus! {

/// Size of a physical frame in bytes.
pub const PAGE_SIZE: u64 = 4096;

/// Number of region slots in a memory map.
pub const MAX_MEMORY_MAP_SIZE: usize = 3840;

/// Represents possible types for memory regions.
#[derive(Debug, Clone, Copy, PartialEq, Eq, Structural)]
pub enum MemoryRegionType {
    /// Unused memory, can be freely used by the kernel.
    Usable,
    /// Memory that is already in use.
    InUse,
    /// Usable memory that should be avoided when possible
    UsableButDangerous,
    /// Memory reserved by the hardware. Not usable.
    Reserved,
    /// ACPI reclaimable memory
    AcpiReclaimable,
    /// ACPI NVS memory
    AcpiNvs,
    /// Area containing bad memory
    BadMemory,
    /// Memory used for loading the kernel.
    Kernel,
    /// Memory used for the kernel stack.
    KernelStack,
    /// Memory used for creating page tables.
    PageTable,
    /// Memory used by the bootloader.
    Bootloader,
    /// SMP trampoline
    SmpTrampoline,
    /// Frame at address zero.
    FrameZero,
    /// An empty region with size 0
    Empty,
    /// Memory used for storing the boot information.
    BootInfo,
    /// Memory used for storing the supplied package
    Package,
    /// An unmapped page for guarding overreach into other memory
    GuardPage,
    /// TSS Stack
    TSSstack,
    /// Room for more variants.
    NonExhaustive,
}

/// A range of frames with an exclusive upper bound.
#[derive(Debug, Clone, Copy, PartialEq, Eq, Structural)]
pub struct FrameRange {
    /// The frame number of the first 4KiB frame in the region.
    pub start_frame_number: u64,
    /// The frame number of the first 4KiB frame that does no longer belong to the region.
    pub end_frame_number: u64,
}

/// Represents a region of physical memory.
#[derive(Debug, Clone, Copy, PartialEq, Eq, Structural)]
pub struct MemoryRegion {
    /// The range of frames that belong to the region.
    pub range: FrameRange,
    /// The type of the region.
    pub region_type: MemoryRegionType,
}

/// A region as the firmware's E820 memory map reports it.
#[derive(Debug, Clone, Copy, PartialEq, Eq, Structural)]
pub struct E820MemoryRegion {
    pub start_addr: u64,
    pub len: u64,
    pub region_type: u32,
    pub acpi_extended_attributes: u32,
}

/// The errors of [`MemoryMap::partition_memory_region`].
#[derive(Debug)]
pub enum PartitionError {
    NotSameRegion(MemoryRegion, MemoryRegion),
    AddrDoesNotExist,
    InvalidRegionType,
    AddrIsNotAligned(u64),
    RegionTypeIsNotUsable(MemoryRegion),
}

/// The error of [`MemoryMap::remove_region`].
#[derive(Debug)]
pub enum RemoveError {
    RegionDoesNotExist,
}

/// A map of the physical memory regions of the underlying machine.
pub struct MemoryMap {
    entries: Vec<MemoryRegion>,
    next_entry_index: u64,
}

/// Whether the range holds no frame.
pub open spec fn range_empty(r: FrameRange) -> bool {
    r.start_frame_number == r.end_frame_number
}

/// First byte address of the range.
pub open spec fn start_of(r: FrameRange) -> int {
    r.start_frame_number * PAGE_SIZE
}

/// Address one past the range.
pub open spec fn end_of(r: FrameRange) -> int {
    r.end_frame_number * PAGE_SIZE
}

/// Whether both addresses of the range fit in 64 bits.
pub open spec fn addrs_fit(r: FrameRange) -> bool {
    start_of(r) <= u64::MAX && end_of(r) <= u64::MAX
}

/// Whether `addr` lies inside the range.
pub open spec fn range_contains(r: FrameRange, addr: int) -> bool {
    start_of(r) <= addr < end_of(r)
}

/// Whether the intersection test on `addr` computes its addresses without overflow:
/// the start address always, the end address when the start is not above `addr`.
pub open spec fn intersects_fits(r: FrameRange, addr: int) -> bool {
    start_of(r) <= u64::MAX && (start_of(r) <= addr ==> end_of(r) <= u64::MAX)
}

/// The region with an empty range and the `Empty` type.
pub open spec fn empty_region() -> MemoryRegion {
    MemoryRegion {
        range: FrameRange { start_frame_number: 0, end_frame_number: 0 },
        region_type: MemoryRegionType::Empty,
    }
}

/// The order a sorted map keeps: regions with frames first, by start and then end
/// frame; regions without frames last.
pub open spec fn region_le(a: MemoryRegion, b: MemoryRegion) -> bool {
    if range_empty(a.range) {
        range_empty(b.range)
    } else if range_empty(b.range) {
        true
    } else {
        a.range.start_frame_number < b.range.start_frame_number || (a.range.start_frame_number
            == b.range.start_frame_number && a.range.end_frame_number
            <= b.range.end_frame_number)
    }
}

pub open spec fn sorted_regions(s: Seq<MemoryRegion>) -> bool {
    forall|i: int, j: int| 0 <= i < j < s.len() ==> region_le(s[i], s[j])
}

/// The regions with at least one frame, counted with multiplicity.
pub open spec fn nonempty_regions(s: Seq<MemoryRegion>) -> Multiset<MemoryRegion> {
    s.to_multiset().filter(|r: MemoryRegion| !range_empty(r.range))
}

/// The number of regions with at least one frame.
pub open spec fn count_nonempty(s: Seq<MemoryRegion>) -> nat
    decreases s.len(),
{
    if s.len() == 0 {
        0
    } else {
        count_nonempty(s.drop_last()) + if range_empty(s.last().range) {
            0nat
        } else {
            1nat
        }
    }
}

/// The first slot in `s[from..]` whose range is empty.
pub open spec fn first_empty_from(s: Seq<MemoryRegion>, from: int) -> Option<int>
    decreases s.len() - from,
{
    if from < 0 || from >= s.len() {
        None
    } else if range_empty(s[from].range) {
        Some(from)
    } else {
        first_empty_from(s, from + 1)
    }
}

/// The index of the first of the first `next` regions that contains `addr`.
pub open spec fn lookup_from(s: Seq<MemoryRegion>, next: int, addr: int, from: int) -> Option<int>
    decreases next - from,
{
    if from < 0 || from >= next || from >= s.len() {
        None
    } else if range_contains(s[from].range, addr) {
        Some(from)
    } else {
        lookup_from(s, next, addr, from + 1)
    }
}

/// The last slot a lookup of `addr` among the first `next` regions examines.
pub open spec fn lookup_end(s: Seq<MemoryRegion>, next: int, addr: int) -> int {
    match lookup_from(s, next, addr, 0) {
        Some(k) => k,
        None => next - 1,
    }
}

/// Whether a lookup of `addr` among the first `next` regions computes every address
/// it needs without overflow.
pub open spec fn lookup_fits(s: Seq<MemoryRegion>, next: int, addr: int) -> bool {
    forall|i: int|
        0 <= i <= lookup_end(s, next, addr) && i < next && i < s.len() ==> #[trigger] intersects_fits(
            s[i].range,
            addr,
        )
}

proof fn lemma_region_le_total(a: MemoryRegion, b: MemoryRegion)
    ensures
        region_le(a, b) || region_le(b, a),
{
}

proof fn lemma_region_le_trans(a: MemoryRegion, b: MemoryRegion, c: MemoryRegion)
    requires
        region_le(a, b),
        region_le(b, c),
    ensures
        region_le(a, c),
{
}

impl FrameRange {
    /// Create a new FrameRange from the passed start_addr and end_addr; the end
    /// address is exclusive.
    pub fn new(start_addr: u64, end_addr: u64) -> (r: FrameRange)
        requires
            end_addr >= 1,
        ensures
            r.start_frame_number == start_addr / PAGE_SIZE,
            r.end_frame_number == (end_addr - 1) / PAGE_SIZE as int + 1,
    {
        let last_byte = end_addr - 1;
        FrameRange {
            start_frame_number: start_addr / PAGE_SIZE,
            end_frame_number: (last_byte / PAGE_SIZE) + 1,
        }
    }

    /// Returns the size in bytes of the frame range
    pub fn size(&self) -> (r: u64)
        requires
            self.start_frame_number <= self.end_frame_number,
            (self.end_frame_number - self.start_frame_number) * PAGE_SIZE <= u64::MAX,
        ensures
            r == (self.end_frame_number - self.start_frame_number) * PAGE_SIZE,
    {
        (self.end_frame_number - self.start_frame_number) * PAGE_SIZE
    }

    /// Returns true if the frame range contains no frames.
    pub fn is_empty(&self) -> (r: bool)
        ensures
            r == range_empty(*self),
    {
        self.start_frame_number == self.end_frame_number
    }

    /// Checks if the supplied address lies inbetween the frame range
    pub fn intersects(&self, addr: u64) -> (r: bool)
        requires
            intersects_fits(*self, addr as int),
        ensures
            r == range_contains(*self, addr as int),
    {
        self.start_addr() <= addr && self.end_addr() > addr
    }

    pub fn set_start_addr(&mut self, addr: u64)
        ensures
            final(self).start_frame_number == addr / PAGE_SIZE,
            final(self).end_frame_number == old(self).end_frame_number,
    {
        self.start_frame_number = addr / PAGE_SIZE;
    }

    pub fn set_end_addr(&mut self, addr: u64)
        ensures
            final(self).end_frame_number == addr / PAGE_SIZE,
            final(self).start_frame_number == old(self).start_frame_number,
    {
        self.end_frame_number = addr / PAGE_SIZE;
    }

    /// Returns the physical start address of the memory region.
    pub fn start_addr(&self) -> (r: u64)
        requires
            start_of(*self) <= u64::MAX,
        ensures
            r == start_of(*self),
    {
        self.start_frame_number * PAGE_SIZE
    }

    /// Returns the physical end address of the memory region.
    pub fn end_addr(&self) -> (r: u64)
        requires
            end_of(*self) <= u64::MAX,
        ensures
            r == end_of(*self),
    {
        self.end_frame_number * PAGE_SIZE
    }
}

/// The region type an E820 type code stands for.
pub open spec fn e820_type(t: u32) -> MemoryRegionType {
    if t == 1 {
        MemoryRegionType::Usable
    } else if t == 2 {
        MemoryRegionType::Reserved
    } else if t == 3 {
        MemoryRegionType::AcpiReclaimable
    } else if t == 4 {
        MemoryRegionType::AcpiNvs
    } else {
        MemoryRegionType::BadMemory
    }
}

/// Whether an E820 entry converts without a panic: a known type code and an end
/// address that fits in 64 bits and is not zero.
pub open spec fn e820_valid(e: E820MemoryRegion) -> bool {
    &&& 1 <= e.region_type <= 5
    &&& e.start_addr + e.len <= u64::MAX
    &&& e.start_addr + e.len >= 1
}

/// The memory region an E820 entry describes.
pub open spec fn e820_region(e: E820MemoryRegion) -> MemoryRegion {
    MemoryRegion {
        range: FrameRange {
            start_frame_number: e.start_addr / PAGE_SIZE,
            end_frame_number: ((e.start_addr + e.len - 1) / PAGE_SIZE as int + 1) as u64,
        },
        region_type: e820_type(e.region_type),
    }
}

/// The region an E820 entry describes, for every entry of `s`.
pub open spec fn e820_regions(s: Seq<E820MemoryRegion>) -> Seq<MemoryRegion> {
    s.map_values(|e: E820MemoryRegion| e820_region(e))
}

/// A usable region whose end reaches past the start of the next region is cut
/// back to that start.
pub open spec fn trim_usable(cur: MemoryRegion, next: MemoryRegion) -> MemoryRegion {
    if cur.range.end_frame_number > next.range.start_frame_number && cur.region_type
        == MemoryRegionType::Usable {
        MemoryRegion {
            range: FrameRange {
                start_frame_number: cur.range.start_frame_number,
                end_frame_number: next.range.start_frame_number,
            },
            region_type: cur.region_type,
        }
    } else {
        cur
    }
}

/// Every used slot but the last trimmed against the slot after it.
pub open spec fn trim_all(s: Seq<MemoryRegion>, next: int) -> Seq<MemoryRegion> {
    Seq::new(
        s.len(),
        |i: int|
            if i + 1 < next {
                trim_usable(s[i], s[i + 1])
            } else {
                s[i]
            },
    )
}

impl MemoryRegion {
    /// The region an E820 entry describes.
    pub fn from_e820(region: E820MemoryRegion) -> (r: MemoryRegion)
        requires
            e820_valid(region),
        ensures
            r == e820_region(region),
            region.region_type == 1 ==> r.region_type == MemoryRegionType::Usable,
            region.region_type == 2 ==> r.region_type == MemoryRegionType::Reserved,
            region.region_type == 3 ==> r.region_type == MemoryRegionType::AcpiReclaimable,
            region.region_type == 4 ==> r.region_type == MemoryRegionType::AcpiNvs,
            region.region_type == 5 ==> r.region_type == MemoryRegionType::BadMemory,
            r.range.start_frame_number == region.start_addr / 4096,
            r.range.start_frame_number * 4096 <= region.start_addr,
            region.start_addr + region.len <= r.range.end_frame_number * 4096 < region.start_addr + region.len
                + 4096,
    {
        let region_type = if region.region_type == 1 {
            MemoryRegionType::Usable
        } else if region.region_type == 2 {
            MemoryRegionType::Reserved
        } else if region.region_type == 3 {
            MemoryRegionType::AcpiReclaimable
        } else if region.region_type == 4 {
            MemoryRegionType::AcpiNvs
        } else {
            MemoryRegionType::BadMemory
        };
        MemoryRegion {
            range: FrameRange::new(region.start_addr, region.start_addr + region.len),
            region_type,
        }
    }

    pub fn empty() -> (r: MemoryRegion)
        ensures
            r == empty_region(),
    {
        MemoryRegion {
            range: FrameRange { start_frame_number: 0, end_frame_number: 0 },
            region_type: MemoryRegionType::Empty,
        }
    }
}

/// Whether two regions are the same region: same frames and same type.
fn same_region(a: &MemoryRegion, b: &MemoryRegion) -> (r: bool)
    ensures
        r == (*a == *b),
{
    a.range.start_frame_number == b.range.start_frame_number && a.range.end_frame_number
        == b.range.end_frame_number && a.region_type == b.region_type
}

fn region_le_exec(a: &MemoryRegion, b: &MemoryRegion) -> (r: bool)
    ensures
        r == region_le(*a, *b),
{
    if a.range.is_empty() {
        b.range.is_empty()
    } else if b.range.is_empty() {
        true
    } else {
        a.range.start_frame_number < b.range.start_frame_number || (a.range.start_frame_number
            == b.range.start_frame_number && a.range.end_frame_number
            <= b.range.end_frame_number)
    }
}

/// Sorts the slots: regions with frames in front ordered by start and end frame,
/// regions without frames behind them.
fn sort_entries(v: &mut Vec<MemoryRegion>)
    ensures
        final(v)@.len() == old(v)@.len(),
        final(v)@.to_multiset() == old(v)@.to_multiset(),
        sorted_regions(final(v)@),
{
    let n = v.len();
    let mut i: usize = 1;
    while i < n
        invariant
            n == v@.len(),
            1 <= i,
            v@.to_multiset() == old(v)@.to_multiset(),
            forall|a: int, b: int| 0 <= a < b < i && b < n ==> region_le(v@[a], v@[b]),
        decreases n - i,
    {
        let mut j = i;
        while j > 0 && !region_le_exec(&v[j - 1], &v[j])
            invariant
                n == v@.len(),
                j <= i < n,
                v@.to_multiset() == old(v)@.to_multiset(),
                forall|a: int, b: int| 0 <= a < b <= i && b != j ==> region_le(v@[a], v@[b]),
            decreases j,
        {
            let x = v[j - 1];
            let y = v[j];
            proof {
                lemma_region_le_total(x, y);
            }
            let ghost before = v@;
            v.set(j - 1, y);
            v.set(j, x);
            proof {
                broadcast use {
                    vstd::seq_lib::group_to_multiset_ensures,
                    vstd::seq_lib::to_multiset_update,
                    vstd::multiset::group_multiset_axioms,
                };

                assert(v@ == before.update(j - 1, y).update(j as int, x));
                assert(v@.to_multiset() =~= before.to_multiset());
                assert forall|a: int, b: int| 0 <= a < b <= i && b != j - 1 implies region_le(
                    v@[a],
                    v@[b],
                ) by {
                    if a == j - 1 && b > j {
                        assert(region_le(x, before[b]));
                        lemma_region_le_trans(y, x, before[b]);
                    }
                }
            }
            j = j - 1;
        }
        proof {
            assert forall|a: int, b: int| 0 <= a < b < i + 1 && b < n implies region_le(
                v@[a],
                v@[b],
            ) by {
                if b == j && a < j {
                    lemma_region_le_trans(v@[a], v@[j - 1], v@[j as int]);
                }
            }
        }
        i = i + 1;
    }
}

pub(crate) proof fn lemma_count_nonempty_multiset(s: Seq<MemoryRegion>)
    ensures
        count_nonempty(s) == nonempty_regions(s).len(),
    decreases s.len(),
{
    broadcast use {
        vstd::multiset::group_multiset_properties,
        vstd::multiset::group_multiset_axioms,
        vstd::seq_lib::group_to_multiset_ensures,
        vstd::seq_lib::to_multiset_update,
    };

    if s.len() == 0 {
        assert(nonempty_regions(s) =~= Multiset::empty());
    } else {
        let t = s.drop_last();
        lemma_count_nonempty_multiset(t);
        assert(s =~= t.push(s.last()));
        if range_empty(s.last().range) {
            assert(nonempty_regions(s) =~= nonempty_regions(t));
        } else {
            assert(nonempty_regions(s) =~= nonempty_regions(t).insert(s.last()));
        }
    }
}

proof fn lemma_first_empty_from(s: Seq<MemoryRegion>, from: int)
    requires
        0 <= from <= s.len(),
    ensures
        match first_empty_from(s, from) {
            Some(p) => from <= p < s.len() && range_empty(s[p].range) && forall|i: int|
                from <= i < p ==> !range_empty(#[trigger] s[i].range),
            None => forall|i: int| from <= i < s.len() ==> !range_empty(#[trigger] s[i].range),
        },
    decreases s.len() - from,
{
    if from < s.len() && !range_empty(s[from].range) {
        lemma_first_empty_from(s, from + 1);
    }
}

/// Counts the regions with frames when they all stand in front of those without.
proof fn lemma_count_split(s: Seq<MemoryRegion>, p: int)
    requires
        0 <= p <= s.len(),
        forall|i: int| 0 <= i < p ==> !range_empty(#[trigger] s[i].range),
        forall|i: int| p <= i < s.len() ==> range_empty(#[trigger] s[i].range),
    ensures
        count_nonempty(s) == p,
    decreases s.len(),
{
    if s.len() > 0 {
        let t = s.drop_last();
        if s.len() > p {
            lemma_count_split(t, p);
        } else {
            lemma_count_split(t, p - 1);
        }
    }
}

/// The number of regions with frames is the same in two orderings of the slots.
proof fn lemma_count_perm(s: Seq<MemoryRegion>, t: Seq<MemoryRegion>)
    requires
        s.to_multiset() == t.to_multiset(),
    ensures
        count_nonempty(s) == count_nonempty(t),
{
    lemma_count_nonempty_multiset(s);
    lemma_count_nonempty_multiset(t);
}

/// Overwriting a slot without frames adds the new region to the regions with frames.
proof fn lemma_nonempty_overwrite_empty(s: Seq<MemoryRegion>, i: int, r: MemoryRegion)
    requires
        0 <= i < s.len(),
        range_empty(s[i].range),
    ensures
        nonempty_regions(s.update(i, r)) == if range_empty(r.range) {
            nonempty_regions(s)
        } else {
            nonempty_regions(s).insert(r)
        },
{
    broadcast use {
        vstd::multiset::group_multiset_properties,
        vstd::multiset::group_multiset_axioms,
        vstd::seq_lib::group_to_multiset_ensures,
        vstd::seq_lib::to_multiset_update,
    };

    if range_empty(r.range) {
        assert(nonempty_regions(s.update(i, r)) =~= nonempty_regions(s));
    } else {
        assert(nonempty_regions(s.update(i, r)) =~= nonempty_regions(s).insert(r));
    }
}

/// Clearing a slot removes its region from the regions with frames.
proof fn lemma_nonempty_clear(s: Seq<MemoryRegion>, i: int)
    requires
        0 <= i < s.len(),
    ensures
        nonempty_regions(s.update(i, empty_region())) == if range_empty(s[i].range) {
            nonempty_regions(s)
        } else {
            nonempty_regions(s).remove(s[i])
        },
{
    broadcast use {
        vstd::multiset::group_multiset_properties,
        vstd::multiset::group_multiset_axioms,
        vstd::seq_lib::group_to_multiset_ensures,
        vstd::seq_lib::to_multiset_update,
    };

    if range_empty(s[i].range) {
        assert(nonempty_regions(s.update(i, empty_region())) =~= nonempty_regions(s));
    } else {
        assert(nonempty_regions(s.update(i, empty_region())) =~= nonempty_regions(s).remove(
            s[i],
        ));
    }
}

/// The index of the first of the first `next` slots that holds `region`.
pub open spec fn find_from(s: Seq<MemoryRegion>, next: int, region: MemoryRegion, from: int) -> Option<int>
    decreases next - from,
{
    if from < 0 || from >= next || from >= s.len() {
        None
    } else if s[from] == region {
        Some(from)
    } else {
        find_from(s, next, region, from + 1)
    }
}

proof fn lemma_find_from(s: Seq<MemoryRegion>, next: int, region: MemoryRegion, from: int)
    requires
        0 <= from,
        next <= s.len(),
    ensures
        match find_from(s, next, region, from) {
            Some(i) => from <= i < next && s[i] == region,
            None => forall|i: int| from <= i < next ==> s[i] != region,
        },
    decreases next - from,
{
    if from < next && s[from] != region {
        lemma_find_from(s, next, region, from + 1);
    }
}

pub(crate) proof fn lemma_lookup_from(s: Seq<MemoryRegion>, next: int, addr: int, from: int)
    requires
        0 <= from,
        next <= s.len(),
    ensures
        match lookup_from(s, next, addr, from) {
            Some(i) => from <= i < next && range_contains(s[i].range, addr) && forall|j: int|
                from <= j < i ==> !range_contains(#[trigger] s[j].range, addr),
            None => forall|j: int| from <= j < next ==> !range_contains(#[trigger] s[j].range, addr),
        },
    decreases next - from,
{
    if from < next && !range_contains(s[from].range, addr) {
        lemma_lookup_from(s, next, addr, from + 1);
    }
}

/// A slot with frames is counted: there is at least one region with frames.
proof fn lemma_nonempty_counted(s: Seq<MemoryRegion>, i: int)
    requires
        0 <= i < s.len(),
        !range_empty(s[i].range),
    ensures
        count_nonempty(s) >= 1,
        count_nonempty(s) <= s.len(),
    decreases s.len(),
{
    if i < s.len() - 1 {
        lemma_nonempty_counted(s.drop_last(), i);
    } else {
        lemma_count_le_len(s.drop_last());
    }
}

proof fn lemma_count_le_len(s: Seq<MemoryRegion>)
    ensures
        count_nonempty(s) <= s.len(),
    decreases s.len(),
{
    if s.len() > 0 {
        lemma_count_le_len(s.drop_last());
    }
}

pub(crate) proof fn lemma_count_take(s: Seq<MemoryRegion>, k: int)
    requires
        0 <= k < s.len(),
    ensures
        count_nonempty(s.take(k + 1)) == count_nonempty(s.take(k)) + if range_empty(s[k].range) {
            0nat
        } else {
            1nat
        },
        nonempty_regions(s.take(k + 1)) == if range_empty(s[k].range) {
            nonempty_regions(s.take(k))
        } else {
            nonempty_regions(s.take(k)).insert(s[k])
        },
{
    broadcast use {
        vstd::multiset::group_multiset_properties,
        vstd::multiset::group_multiset_axioms,
        vstd::seq_lib::group_to_multiset_ensures,
    };

    assert(s.take(k + 1).drop_last() =~= s.take(k));
    assert(s.take(k + 1) =~= s.take(k).push(s[k]));
    if range_empty(s[k].range) {
        assert(nonempty_regions(s.take(k + 1)) =~= nonempty_regions(s.take(k)));
    } else {
        assert(nonempty_regions(s.take(k + 1)) =~= nonempty_regions(s.take(k)).insert(s[k]));
    }
}

/// Builds the memory map from the firmware's E820 entries: every entry is added,
/// the map sorted, and usable regions that reach into the next region cut back.
pub fn create_from(regions: &[E820MemoryRegion]) -> (r: MemoryMap)
    requires
        forall|k: int| 0 <= k < regions@.len() ==> e820_valid(#[trigger] regions@[k]),
        forall|k: int|
            0 <= k < regions@.len() ==> #[trigger] count_nonempty(e820_regions(regions@).take(k))
                < MAX_MEMORY_MAP_SIZE,
    ensures
        r.wf(),
        exists|sorted: MemoryMap|
            {
                &&& sorted.wf()
                &&& sorted.tidy()
                &&& sorted.regions() == nonempty_regions(e820_regions(regions@))
                &&& r.next() == sorted.next()
                &&& r.entries() == trim_all(sorted.entries(), sorted.next())
            },
{
    let ghost rs = e820_regions(regions@);
    let mut map = MemoryMap::new();
    proof {
        assert(rs.take(0) =~= Seq::<MemoryRegion>::empty());
        lemma_count_nonempty_multiset(map.entries());
        lemma_count_nonempty_multiset(rs.take(0));
        broadcast use vstd::multiset::group_multiset_properties;
        assert(map.regions() =~= Multiset::empty());
        assert(nonempty_regions(rs.take(0)) =~= Multiset::empty());
    }
    let mut k: usize = 0;
    while k < regions.len()
        invariant
            rs == e820_regions(regions@),
            k <= regions@.len(),
            forall|j: int| 0 <= j < regions@.len() ==> e820_valid(#[trigger] regions@[j]),
            forall|j: int|
                0 <= j < regions@.len() ==> #[trigger] count_nonempty(rs.take(j))
                    < MAX_MEMORY_MAP_SIZE,
            map.wf(),
            map.tidy(),
            map.num_regions() == count_nonempty(rs.take(k as int)),
            map.regions() == nonempty_regions(rs.take(k as int)),
        decreases regions@.len() - k,
    {
        let region = MemoryRegion::from_e820(regions[k]);
        proof {
            lemma_count_take(rs, k as int);
            assert(rs[k as int] == region);
        }
        map.add_region(region);
        k = k + 1;
    }
    proof {
        assert(rs.take(regions@.len() as int) =~= rs);
    }
    map.sort();
    let ghost sorted = map;
    map.trim_usable_regions();
    map
}

pub open spec fn abs_diff(a: int, b: int) -> int {
    if a >= b {
        a - b
    } else {
        b - a
    }
}

/// The three parts a partition cuts `region` into: the part below `start_addr`
/// (or nothing when the start lies within a frame of the region's start), the
/// part `start_addr..end_addr` with the new type (widened to the region's bounds
/// when they lie within a frame), and the part above `end_addr`.
pub open spec fn partition_parts(
    region: MemoryRegion,
    start_addr: u64,
    end_addr: u64,
    region_type: MemoryRegionType,
) -> Seq<MemoryRegion> {
    let low = abs_diff(start_of(region.range), start_addr as int) < PAGE_SIZE;
    let high = abs_diff(end_of(region.range), end_addr as int) < PAGE_SIZE;
    let below = if low {
        empty_region()
    } else {
        MemoryRegion {
            range: FrameRange {
                start_frame_number: region.range.start_frame_number,
                end_frame_number: start_addr / PAGE_SIZE,
            },
            region_type: region.region_type,
        }
    };
    let middle = MemoryRegion {
        range: FrameRange {
            start_frame_number: if low {
                region.range.start_frame_number
            } else {
                start_addr / PAGE_SIZE
            },
            end_frame_number: if high {
                region.range.end_frame_number
            } else {
                end_addr / PAGE_SIZE
            },
        },
        region_type: region_type,
    };
    let above = if high {
        empty_region()
    } else {
        MemoryRegion {
            range: FrameRange {
                start_frame_number: end_addr / PAGE_SIZE,
                end_frame_number: region.range.end_frame_number,
            },
            region_type: region.region_type,
        }
    };
    seq![below, middle, above]
}

/// The region of the frames from `start` up to `end`, both page aligned.
pub open spec fn frames_region(start: u64, end: u64, region_type: MemoryRegionType) -> MemoryRegion {
    MemoryRegion {
        range: FrameRange { start_frame_number: start / PAGE_SIZE, end_frame_number: end / PAGE_SIZE },
        region_type,
    }
}

/// For page aligned bounds the middle part of a partition is exactly the
/// requested frames.
pub proof fn lemma_partition_middle(region: MemoryRegion, start: u64, end: u64, region_type: MemoryRegionType)
    requires
        start % PAGE_SIZE == 0,
        end % PAGE_SIZE == 0,
    ensures
        partition_parts(region, start, end, region_type)[1] == frames_region(start, end, region_type),
{
    let rs = region.range.start_frame_number as int;
    let re = region.range.end_frame_number as int;
    if abs_diff(start_of(region.range), start as int) < PAGE_SIZE {
        assert(rs == start / PAGE_SIZE) by (nonlinear_arith)
            requires
                start % 4096 == 0,
                rs * 4096 - start < 4096,
                start - rs * 4096 < 4096,
                rs >= 0,
        ;
    }
    if abs_diff(end_of(region.range), end as int) < PAGE_SIZE {
        assert(re == end / PAGE_SIZE) by (nonlinear_arith)
            requires
                end % 4096 == 0,
                re * 4096 - end < 4096,
                end - re * 4096 < 4096,
                re >= 0,
        ;
    }
}

/// Whether a partition part is added to the map (its type is not `Empty`).
pub open spec fn part_added(p: MemoryRegion) -> bool {
    p.region_type != MemoryRegionType::Empty
}

/// Whether a partition part adds a region with frames.
pub open spec fn part_counts(p: MemoryRegion) -> int {
    if part_added(p) && !range_empty(p.range) {
        1
    } else {
        0
    }
}

/// The regions after adding a partition part.
pub open spec fn add_part(m: Multiset<MemoryRegion>, p: MemoryRegion) -> Multiset<MemoryRegion> {
    if part_added(p) && !range_empty(p.range) {
        m.insert(p)
    } else {
        m
    }
}

/// Whether every part the partition adds finds a free slot, when `n` regions
/// with frames remain after the partitioned region is taken out.
pub open spec fn parts_fit(n: int, parts: Seq<MemoryRegion>) -> bool {
    &&& part_added(parts[0]) ==> n < MAX_MEMORY_MAP_SIZE
    &&& part_added(parts[1]) ==> n + part_counts(parts[0]) < MAX_MEMORY_MAP_SIZE
    &&& part_added(parts[2]) ==> n + part_counts(parts[0]) + part_counts(parts[1])
        < MAX_MEMORY_MAP_SIZE
}

/// `after` is a map that partitioning `start_addr..end_addr` of `before` as
/// `region_type` leads to: the region the checks settle on is replaced by the
/// parts of the partition, the map stays well formed and sorted, the requested
/// frames form a region of their own, and the regions that may not be
/// partitioned stay.
pub open spec fn partitioned(
    before: MemoryMap,
    after: MemoryMap,
    start_addr: u64,
    end_addr: u64,
    region_type: MemoryRegionType,
) -> bool {
    before.partition_check(start_addr, end_addr, region_type) matches Ok(region) && {
        let parts = partition_parts(region, start_addr, end_addr, region_type);
        &&& after.wf()
        &&& after.tidy()
        &&& after.regions() == add_part(
            add_part(add_part(before.regions().remove(region), parts[0]), parts[1]),
            parts[2],
        )
        &&& start_addr < end_addr ==> after.regions().contains(frames_region(start_addr, end_addr, region_type))
        &&& forall|x: MemoryRegion|
            before.regions().contains(x) && !usable_type(x.region_type) ==> #[trigger] after.regions().contains(x)
    }
}

/// Whether a region type may be partitioned.
pub open spec fn usable_type(t: MemoryRegionType) -> bool {
    t == MemoryRegionType::Usable || t == MemoryRegionType::UsableButDangerous
}

/// Computes the three parts of a partition.
fn compute_parts(
    region: MemoryRegion,
    start_addr: u64,
    end_addr: u64,
    region_type: MemoryRegionType,
) -> (parts: [MemoryRegion; 3])
    requires
        addrs_fit(region.range),
    ensures
        parts@ == partition_parts(region, start_addr, end_addr, region_type),
{
    let mem_type = region.region_type;
    let region_start = region.range.start_addr();
    let region_end = region.range.end_addr();
    let start_diff = if region_start >= start_addr {
        region_start - start_addr
    } else {
        start_addr - region_start
    };
    let end_diff = if region_end >= end_addr {
        region_end - end_addr
    } else {
        end_addr - region_end
    };
    let mut below = MemoryRegion::empty();
    let mut middle = MemoryRegion::empty();
    let mut above = MemoryRegion::empty();
    middle.region_type = region_type;
    if start_diff < PAGE_SIZE {
        middle.range.set_start_addr(region_start);
        below.region_type = MemoryRegionType::Empty;
    } else {
        middle.range.set_start_addr(start_addr);
        below.region_type = mem_type;
        below.range.set_start_addr(region_start);
        below.range.set_end_addr(start_addr);
    }
    if end_diff < PAGE_SIZE {
        middle.range.set_end_addr(region_end);
        above.region_type = MemoryRegionType::Empty;
    } else {
        middle.range.set_end_addr(end_addr);
        above.region_type = mem_type;
        above.range.set_start_addr(end_addr);
        above.range.set_end_addr(region_end);
    }
    let parts = [below, middle, above];
    assert(parts@ =~= partition_parts(region, start_addr, end_addr, region_type));
    parts
}

impl MemoryMap {
    /// The region slots.
    pub closed spec fn entries(&self) -> Seq<MemoryRegion> {
        self.entries@
    }

    /// The number of slots in use.
    pub closed spec fn next(&self) -> int {
        self.next_entry_index as int
    }

    /// The regions with frames, counted with multiplicity.
    pub open spec fn regions(&self) -> Multiset<MemoryRegion> {
        nonempty_regions(self.entries())
    }

    /// The number of regions with frames.
    pub open spec fn num_regions(&self) -> nat {
        count_nonempty(self.entries())
    }

    /// Every slot exists, and the slots behind the used ones hold no frames.
    pub open spec fn wf(&self) -> bool {
        &&& self.entries().len() == MAX_MEMORY_MAP_SIZE
        &&& 0 <= self.next() <= MAX_MEMORY_MAP_SIZE
        &&& forall|i: int|
            self.next() <= i < MAX_MEMORY_MAP_SIZE ==> range_empty(#[trigger] self.entries()[i].range)
    }

    /// A map whose slots are sorted and whose used slots are exactly those with frames.
    pub open spec fn tidy(&self) -> bool {
        &&& sorted_regions(self.entries())
        &&& self.next() == self.num_regions()
    }

    /// The index of the first used slot whose region contains `addr`.
    pub open spec fn lookup(&self, addr: int) -> Option<int> {
        lookup_from(self.entries(), self.next(), addr, 0)
    }

    /// Creates an empty memory map
    pub fn new() -> (r: MemoryMap)
        ensures
            r.wf(),
            r.tidy(),
            r.next() == 0,
            r.entries() == Seq::new(MAX_MEMORY_MAP_SIZE as nat, |i: int| empty_region()),
    {
        let mut entries: Vec<MemoryRegion> = Vec::new();
        while entries.len() < MAX_MEMORY_MAP_SIZE
            invariant
                entries@.len() <= MAX_MEMORY_MAP_SIZE,
                forall|i: int| 0 <= i < entries@.len() ==> entries@[i] == empty_region(),
            decreases MAX_MEMORY_MAP_SIZE - entries.len(),
        {
            entries.push(MemoryRegion::empty());
        }
        let r = MemoryMap { entries, next_entry_index: 0 };
        assert(r.entries() =~= Seq::new(MAX_MEMORY_MAP_SIZE as nat, |i: int| empty_region()));
        proof {
            lemma_count_split(r.entries(), 0);
        }
        r
    }

    /// The number of slots in use.
    pub fn next_entry_index(&self) -> (r: usize)
        requires
            self.wf(),
        ensures
            r == self.next(),
    {
        self.next_entry_index as usize
    }

    /// The region in used slot `i`.
    pub fn region_at(&self, i: usize) -> (r: MemoryRegion)
        requires
            self.wf(),
            i < self.next(),
        ensures
            r == self.entries()[i as int],
    {
        self.entries[i]
    }

    /// The region in slot `i`, used or not.
    pub fn slot(&self, i: usize) -> (r: MemoryRegion)
        requires
            self.wf(),
            i < MAX_MEMORY_MAP_SIZE,
        ensures
            r == self.entries()[i as int],
    {
        self.entries[i]
    }

    /// Whether used slot `i` holds a usable region that contains `addr`.
    pub open spec fn usable_at(&self, i: int, addr: int) -> bool {
        &&& self.entries()[i].region_type == MemoryRegionType::Usable
        &&& range_contains(self.entries()[i].range, addr)
    }

    /// Returns the first used region that is usable and contains the supplied
    /// address, `None` when no usable region holds it.
    pub fn get_region_by_addr(&self, addr: u64) -> (r: Option<&MemoryRegion>)
        requires
            self.wf(),
            forall|i: int|
                0 <= i < self.next() && #[trigger] self.entries()[i].region_type == MemoryRegionType::Usable
                    ==> intersects_fits(self.entries()[i].range, addr as int),
        ensures
            match r {
                Some(reg) => exists|i: int|
                    0 <= i < self.next() && self.usable_at(i, addr as int) && *reg == #[trigger] self.entries()[i]
                        && forall|j: int| 0 <= j < i ==> !self.usable_at(j, addr as int),
                None => forall|i: int| 0 <= i < self.next() ==> !self.usable_at(i, addr as int),
            },
    {
        let n = self.next_entry_index as usize;
        let mut i: usize = 0;
        while i < n
            invariant
                self.wf(),
                n == self.next(),
                i <= n,
                forall|k: int|
                    0 <= k < self.next() && #[trigger] self.entries()[k].region_type == MemoryRegionType::Usable
                        ==> intersects_fits(self.entries()[k].range, addr as int),
                forall|j: int| 0 <= j < i ==> !self.usable_at(j, addr as int),
            decreases n - i,
        {
            if self.entries[i].region_type == MemoryRegionType::Usable && self.entries[i].range.intersects(addr) {
                return Some(&self.entries[i]);
            }
            i = i + 1;
        }
        None
    }

    /// Returns the first used region that contains the supplied address,
    /// whatever its type.
    pub fn region_containing(&self, addr: u64) -> (r: Option<&MemoryRegion>)
        requires
            self.wf(),
            lookup_fits(self.entries(), self.next(), addr as int),
        ensures
            match self.lookup(addr as int) {
                Some(i) => r matches Some(reg) && *reg == self.entries()[i],
                None => r is None,
            },
    {
        let n = self.next_entry_index as usize;
        let mut i: usize = 0;
        proof {
            lemma_lookup_from(self.entries(), self.next(), addr as int, 0);
        }
        while i < n
            invariant
                self.wf(),
                n == self.next(),
                i <= n,
                lookup_fits(self.entries(), self.next(), addr as int),
                self.lookup(addr as int) == lookup_from(self.entries(), self.next(), addr as int, i as int),
            decreases n - i,
        {
            proof {
                lemma_lookup_from(self.entries(), self.next(), addr as int, i as int);
            }
            if self.entries[i].range.intersects(addr) {
                return Some(&self.entries[i]);
            }
            i = i + 1;
        }
        None
    }

    /// Sorts the slots: regions with frames in front, ordered by start and end
    /// frame; the used slots are then exactly those with frames.
    pub fn sort(&mut self)
        requires
            old(self).entries().len() == MAX_MEMORY_MAP_SIZE,
            0 <= old(self).next() <= MAX_MEMORY_MAP_SIZE,
            old(self).next() == MAX_MEMORY_MAP_SIZE || exists|i: int|
                0 <= i < MAX_MEMORY_MAP_SIZE && range_empty(#[trigger] old(self).entries()[i].range),
        ensures
            final(self).wf(),
            final(self).tidy(),
            final(self).entries().to_multiset() == old(self).entries().to_multiset(),
            final(self).regions() == old(self).regions(),
            final(self).num_regions() == old(self).num_regions(),
    {
        sort_entries(&mut self.entries);
        proof {
            lemma_count_perm(self.entries(), old(self).entries());
        }
        let n = self.entries.len();
        let mut p: usize = 0;
        while p < n && !self.entries[p].range.is_empty()
            invariant
                n == self.entries().len(),
                p <= n,
                forall|i: int| 0 <= i < p ==> !range_empty(#[trigger] self.entries()[i].range),
            decreases n - p,
        {
            p = p + 1;
        }
        if p < n {
            proof {
                assert forall|i: int| p <= i < n implies range_empty(#[trigger] self.entries()[i].range) by {
                    if p < i {
                        assert(region_le(self.entries()[p as int], self.entries()[i]));
                    }
                }
                lemma_count_split(self.entries(), p as int);
            }
            self.next_entry_index = p as u64;
        } else {
            proof {
                lemma_count_split(self.entries(), n as int);
                broadcast use {
                    vstd::seq_lib::group_to_multiset_ensures,
                    vstd::multiset::group_multiset_axioms,
                };

                if old(self).next() < MAX_MEMORY_MAP_SIZE {
                    let k = choose|i: int| 0 <= i < MAX_MEMORY_MAP_SIZE && range_empty(#[trigger] old(self).entries()[i].range);
                    assert(old(self).entries().to_multiset().count(old(self).entries()[k]) > 0);
                    assert(self.entries().contains(old(self).entries()[k]));
                }
            }
        }
    }

    /// Adds a memory region and sorts the map.
    pub fn add_region(&mut self, region: MemoryRegion)
        requires
            old(self).wf(),
            old(self).next() < MAX_MEMORY_MAP_SIZE,
        ensures
            final(self).wf(),
            final(self).tidy(),
            final(self).regions() == if range_empty(region.range) {
                old(self).regions()
            } else {
                old(self).regions().insert(region)
            },
            final(self).num_regions() == old(self).num_regions() + if range_empty(region.range) {
                0nat
            } else {
                1nat
            },
    {
        let i = self.next_entry_index as usize;
        proof {
            lemma_nonempty_overwrite_empty(self.entries(), i as int, region);
            lemma_count_nonempty_multiset(self.entries());
            lemma_count_nonempty_multiset(self.entries().update(i as int, region));
            broadcast use {
        vstd::multiset::group_multiset_properties,
        vstd::multiset::group_multiset_axioms,
        vstd::seq_lib::group_to_multiset_ensures,
        vstd::seq_lib::to_multiset_update,
    };
        }
        self.entries.set(i, region);
        self.next_entry_index = self.next_entry_index + 1;
        proof {
            if i + 1 < MAX_MEMORY_MAP_SIZE {
                assert(range_empty(self.entries()[i + 1].range));
            }
        }
        self.sort();
    }

    /// Removes a memory region: the first used slot that holds it is cleared and
    /// the map sorted.
    pub fn remove_region(&mut self, region: MemoryRegion) -> (r: Result<(), RemoveError>)
        requires
            old(self).wf(),
        ensures
            final(self).wf(),
            r is Ok <==> find_from(old(self).entries(), old(self).next(), region, 0) is Some,
            r is Ok ==> {
                &&& final(self).tidy()
                &&& final(self).regions() == if range_empty(region.range) {
                    old(self).regions()
                } else {
                    old(self).regions().remove(region)
                }
                &&& final(self).num_regions() == old(self).num_regions() - if range_empty(
                    region.range,
                ) {
                    0int
                } else {
                    1int
                }
            },
            r is Err ==> final(self).entries() == old(self).entries() && final(self).next()
                == old(self).next(),
    {
        let n = self.next_entry_index as usize;
        let mut i: usize = 0;
        let mut found = false;
        proof {
            lemma_find_from(self.entries(), self.next(), region, 0);
        }
        while i < n && !found
            invariant
                self.wf(),
                n == self.next(),
                i <= n,
                self.entries() == old(self).entries(),
                self.next() == old(self).next(),
                !found ==> forall|j: int| 0 <= j < i ==> self.entries()[j] != region,
                !found ==> find_from(self.entries(), self.next(), region, 0) == find_from(
                    self.entries(),
                    self.next(),
                    region,
                    i as int,
                ),
                found ==> i < n && self.entries()[i as int] == region && find_from(
                    self.entries(),
                    self.next(),
                    region,
                    0,
                ) == Some(i as int),
            decreases n - i + if found {
                0int
            } else {
                1int
            },
        {
            if same_region(&self.entries[i], &region) {
                found = true;
            } else {
                i = i + 1;
            }
        }
        if found {
            proof {
                lemma_nonempty_clear(self.entries(), i as int);
                lemma_count_nonempty_multiset(self.entries());
                lemma_count_nonempty_multiset(self.entries().update(i as int, empty_region()));
                broadcast use {
        vstd::multiset::group_multiset_properties,
        vstd::multiset::group_multiset_axioms,
        vstd::seq_lib::group_to_multiset_ensures,
        vstd::seq_lib::to_multiset_update,
    };
            }
            self.entries.set(i, MemoryRegion::empty());
            self.next_entry_index = self.next_entry_index - 1;
            assert(range_empty(self.entries()[i as int].range));
            self.sort();
            Ok(())
        } else {
            Err(RemoveError::RegionDoesNotExist)
        }
    }


    /// Takes `region` out of the map and adds the parts with a type.
    fn replace_with_parts(&mut self, region: MemoryRegion, parts: &[MemoryRegion; 3])
        requires
            old(self).wf(),
            find_from(old(self).entries(), old(self).next(), region, 0) is Some,
            !range_empty(region.range),
            parts_fit(old(self).num_regions() - 1, parts@),
        ensures
            final(self).wf(),
            final(self).tidy(),
            final(self).regions() == add_part(
                add_part(add_part(old(self).regions().remove(region), parts@[0]), parts@[1]),
                parts@[2],
            ),
    {
        let removed = self.remove_region(region);
        match removed {
            Ok(()) => {},
            Err(_) => {
                proof {
                    assert(false);
                }
            },
        }
        let ghost m0 = self.regions();
        let below = parts[0];
        let middle = parts[1];
        let above = parts[2];
        if below.region_type != MemoryRegionType::Empty {
            self.add_region(below);
        }
        assert(self.regions() == add_part(m0, parts@[0]));
        if middle.region_type != MemoryRegionType::Empty {
            self.add_region(middle);
        }
        assert(self.regions() == add_part(add_part(m0, parts@[0]), parts@[1]));
        if above.region_type != MemoryRegionType::Empty {
            self.add_region(above);
        }
    }

    /// Cuts every used usable region back to the start of the region after it
    /// when it reaches past that start.
    pub fn trim_usable_regions(&mut self)
        requires
            old(self).wf(),
        ensures
            final(self).wf(),
            final(self).next() == old(self).next(),
            final(self).entries() == trim_all(old(self).entries(), old(self).next()),
    {
        let n = self.next_entry_index as usize;
        let mut i: usize = 0;
        while i + 1 < n
            invariant
                self.entries().len() == MAX_MEMORY_MAP_SIZE,
                n == self.next() == old(self).next(),
                n <= MAX_MEMORY_MAP_SIZE,
                old(self).entries().len() == MAX_MEMORY_MAP_SIZE,
                i <= n,
                forall|k: int|
                    0 <= k < MAX_MEMORY_MAP_SIZE ==> #[trigger] self.entries()[k] == if k < i {
                        trim_all(old(self).entries(), old(self).next())[k]
                    } else {
                        old(self).entries()[k]
                    },
            decreases n - i,
        {
            let cur = self.entries[i];
            let nx = self.entries[i + 1];
            assert(trim_all(old(self).entries(), old(self).next())[i as int] == trim_usable(
                old(self).entries()[i as int],
                old(self).entries()[i + 1],
            ));
            if cur.range.end_frame_number > nx.range.start_frame_number && cur.region_type
                == MemoryRegionType::Usable {
                let trimmed = MemoryRegion {
                    range: FrameRange {
                        start_frame_number: cur.range.start_frame_number,
                        end_frame_number: nx.range.start_frame_number,
                    },
                    region_type: cur.region_type,
                };
                self.entries.set(i, trimmed);
            }
            i = i + 1;
        }
        assert(self.entries() =~= trim_all(old(self).entries(), old(self).next()));
    }

    /// Whether partitioning runs without a panic: the address arithmetic fits in
    /// 64 bits and every part the partition adds finds a free slot.
    #[verifier::opaque]
    pub open spec fn partition_fits(
        &self,
        start_addr: u64,
        end_addr: u64,
        region_type: MemoryRegionType,
    ) -> bool {
        (region_type != MemoryRegionType::Empty && start_addr % PAGE_SIZE == 0 && end_addr
            % PAGE_SIZE == 0) ==> {
            &&& end_addr >= 1
            &&& lookup_fits(self.entries(), self.next(), end_addr - 1)
            &&& (self.lookup(end_addr - 1) is Some ==> lookup_fits(
                self.entries(),
                self.next(),
                start_addr as int,
            ))
            &&& (self.lookup(end_addr - 1) is Some && self.lookup(start_addr as int) is Some) ==> {
                let region = self.entries()[self.lookup(start_addr as int)->0];
                (region == self.entries()[self.lookup(end_addr - 1)->0] && usable_type(
                    region.region_type,
                )) ==> parts_fit(
                    self.num_regions() - 1,
                    partition_parts(region, start_addr, end_addr, region_type),
                )
            }
        }
    }

    /// The outcome of the checks a partition makes before it changes the map:
    /// the region to partition, or the error.
    pub open spec fn partition_check(
        &self,
        start_addr: u64,
        end_addr: u64,
        region_type: MemoryRegionType,
    ) -> Result<MemoryRegion, PartitionError> {
        if region_type == MemoryRegionType::Empty {
            Err(PartitionError::InvalidRegionType)
        } else if start_addr % PAGE_SIZE != 0 {
            Err(PartitionError::AddrIsNotAligned(start_addr))
        } else if end_addr % PAGE_SIZE != 0 {
            Err(PartitionError::AddrIsNotAligned(end_addr))
        } else {
            let le = self.lookup(end_addr - 1);
            let ls = self.lookup(start_addr as int);
            if le is None || ls is None {
                Err(PartitionError::AddrDoesNotExist)
            } else if self.entries()[ls->0] != self.entries()[le->0] {
                Err(PartitionError::NotSameRegion(self.entries()[ls->0], self.entries()[le->0]))
            } else if !usable_type(self.entries()[ls->0].region_type) {
                Err(PartitionError::RegionTypeIsNotUsable(self.entries()[ls->0]))
            } else {
                Ok(self.entries()[ls->0])
            }
        }
    }

    fn check_partition(
        &self,
        start_addr: u64,
        end_addr: u64,
        region_type: MemoryRegionType,
    ) -> (r: Result<MemoryRegion, PartitionError>)
        requires
            self.wf(),
            (region_type != MemoryRegionType::Empty && start_addr % PAGE_SIZE == 0 && end_addr
                % PAGE_SIZE == 0) ==> {
                &&& end_addr >= 1
                &&& lookup_fits(self.entries(), self.next(), end_addr - 1)
                &&& (self.lookup(end_addr - 1) is Some ==> lookup_fits(
                    self.entries(),
                    self.next(),
                    start_addr as int,
                ))
            },
        ensures
            r == self.partition_check(start_addr, end_addr, region_type),
    {
        if region_type == MemoryRegionType::Empty {
            return Err(PartitionError::InvalidRegionType);
        }
        if start_addr % PAGE_SIZE != 0 {
            return Err(PartitionError::AddrIsNotAligned(start_addr));
        }
        if end_addr % PAGE_SIZE != 0 {
            return Err(PartitionError::AddrIsNotAligned(end_addr));
        }
        let end_region = match self.region_containing(end_addr - 1) {
            Some(reg) => *reg,
            None => {
                return Err(PartitionError::AddrDoesNotExist);
            },
        };
        let region = match self.region_containing(start_addr) {
            Some(reg) => *reg,
            None => {
                return Err(PartitionError::AddrDoesNotExist);
            },
        };
        if !same_region(&region, &end_region) {
            return Err(PartitionError::NotSameRegion(region, end_region));
        }
        let mem_type = region.region_type;
        if mem_type != MemoryRegionType::Usable && mem_type != MemoryRegionType::UsableButDangerous {
            return Err(PartitionError::RegionTypeIsNotUsable(region));
        }
        Ok(region)
    }

    /// Whether the addresses of every used region fit in 64 bits.
    pub open spec fn all_fit(&self) -> bool {
        forall|i: int| 0 <= i < self.next() ==> addrs_fit(#[trigger] self.entries()[i].range)
    }

    /// When every used region's addresses fit, any lookup computes its addresses
    /// without overflow.
    pub proof fn lemma_all_fit_lookup(&self, addr: int)
        requires
            self.wf(),
            self.all_fit(),
        ensures
            lookup_fits(self.entries(), self.next(), addr),
    {
        assert forall|i: int|
            0 <= i <= lookup_end(self.entries(), self.next(), addr) && i < self.next() && i
                < self.entries().len() implies #[trigger] intersects_fits(self.entries()[i].range, addr) by {
            assert(addrs_fit(self.entries()[i].range));
        }
    }

    /// Whether the addresses of every used region fit in 64 bits.
    pub fn all_regions_fit(&self) -> (r: bool)
        requires
            self.wf(),
        ensures
            r == self.all_fit(),
    {
        let n = self.next_entry_index as usize;
        let mut i: usize = 0;
        while i < n
            invariant
                self.wf(),
                n == self.next(),
                i <= n,
                forall|j: int| 0 <= j < i ==> addrs_fit(#[trigger] self.entries()[j].range),
            decreases n - i,
        {
            let max_frame: u64 = 0xf_ffff_ffff_ffff;
            if self.entries[i].range.start_frame_number > max_frame
                || self.entries[i].range.end_frame_number > max_frame {
                assert(!addrs_fit(self.entries()[i as int].range));
                return false;
            }
            i = i + 1;
        }
        true
    }

    /// Replaces the region in used slot `i`, as writing through the map's slice of
    /// used regions does; the map is not sorted again.
    pub fn set_region(&mut self, i: usize, region: MemoryRegion)
        requires
            old(self).wf(),
            i < old(self).next(),
        ensures
            final(self).wf(),
            final(self).next() == old(self).next(),
            final(self).entries() == old(self).entries().update(i as int, region),
    {
        self.entries.set(i, region);
    }

    /// Whether a lookup of `addr` computes every address it needs without
    /// overflow.
    fn lookup_fits_exec(&self, addr: u64) -> (r: bool)
        requires
            self.wf(),
        ensures
            r == lookup_fits(self.entries(), self.next(), addr as int),
    {
        let n = self.next_entry_index as usize;
        let mut i: usize = 0;
        proof {
            lemma_lookup_from(self.entries(), self.next(), addr as int, 0);
        }
        while i < n
            invariant
                self.wf(),
                n == self.next(),
                i <= n,
                forall|j: int| 0 <= j < i ==> intersects_fits(#[trigger] self.entries()[j].range, addr as int),
                forall|j: int| 0 <= j < i ==> !range_contains(#[trigger] self.entries()[j].range, addr as int),
            decreases n - i,
        {
            let range = self.entries[i].range;
            let max_frame: u64 = 0xf_ffff_ffff_ffff;
            if range.start_frame_number > max_frame {
                proof {
                    lemma_lookup_from(self.entries(), self.next(), addr as int, 0);
                    assert(!intersects_fits(self.entries()[i as int].range, addr as int));
                }
                return false;
            }
            let start = range.start_addr();
            if start <= addr {
                if range.end_frame_number > max_frame {
                    proof {
                        lemma_lookup_from(self.entries(), self.next(), addr as int, 0);
                        assert(!intersects_fits(self.entries()[i as int].range, addr as int));
                    }
                    return false;
                }
                if range.end_addr() > addr {
                    proof {
                        lemma_lookup_from(self.entries(), self.next(), addr as int, 0);
                        assert(lookup_end(self.entries(), self.next(), addr as int) == i);
                    }
                    return true;
                }
            }
            i = i + 1;
        }
        proof {
            lemma_lookup_from(self.entries(), self.next(), addr as int, 0);
        }
        true
    }

    /// The number of regions with frames.
    pub fn count_regions(&self) -> (r: usize)
        requires
            self.wf(),
        ensures
            r == self.num_regions(),
    {
        let mut count: usize = 0;
        let mut k: usize = 0;
        while k < self.entries.len()
            invariant
                self.wf(),
                k <= MAX_MEMORY_MAP_SIZE,
                count == count_nonempty(self.entries().take(k as int)),
                count <= k,
            decreases MAX_MEMORY_MAP_SIZE - k,
        {
            proof {
                lemma_count_take(self.entries(), k as int);
            }
            if !self.entries[k].range.is_empty() {
                count = count + 1;
            }
            k = k + 1;
        }
        assert(self.entries().take(MAX_MEMORY_MAP_SIZE as int) =~= self.entries());
        count
    }

    /// Whether partitioning `start_addr..end_addr` into `region_type` runs
    /// without a panic (see `partition_fits`).
    pub fn can_partition(&self, start_addr: u64, end_addr: u64, region_type: MemoryRegionType) -> (r: bool)
        requires
            self.wf(),
        ensures
            r == self.partition_fits(start_addr, end_addr, region_type),
    {
        proof {
            reveal(MemoryMap::partition_fits);
        }
        if !(region_type != MemoryRegionType::Empty && start_addr % PAGE_SIZE == 0 && end_addr
            % PAGE_SIZE == 0) {
            return true;
        }
        if end_addr < 1 {
            return false;
        }
        if !self.lookup_fits_exec(end_addr - 1) {
            return false;
        }
        let end_region = match self.region_containing(end_addr - 1) {
            Some(reg) => *reg,
            None => {
                return true;
            },
        };
        if !self.lookup_fits_exec(start_addr) {
            return false;
        }
        let region = match self.region_containing(start_addr) {
            Some(reg) => *reg,
            None => {
                return true;
            },
        };
        if !same_region(&region, &end_region) {
            return true;
        }
        if region.region_type != MemoryRegionType::Usable && region.region_type
            != MemoryRegionType::UsableButDangerous {
            return true;
        }
        let ghost ls = self.lookup(start_addr as int)->0;
        proof {
            lemma_lookup_from(self.entries(), self.next(), start_addr as int, 0);
            assert(self.entries()[ls] == region);
            assert(intersects_fits(self.entries()[ls].range, start_addr as int));
            lemma_nonempty_counted(self.entries(), ls);
        }
        let parts = compute_parts(region, start_addr, end_addr, region_type);
        let count = self.count_regions();
        let c0: usize = if parts[0].region_type != MemoryRegionType::Empty && !parts[0].range.is_empty() {
            1
        } else {
            0
        };
        let c1: usize = if parts[1].region_type != MemoryRegionType::Empty && !parts[1].range.is_empty() {
            1
        } else {
            0
        };
        let f0 = parts[0].region_type == MemoryRegionType::Empty || count - 1 < MAX_MEMORY_MAP_SIZE;
        let f1 = parts[1].region_type == MemoryRegionType::Empty || count - 1 + c0 < MAX_MEMORY_MAP_SIZE;
        let f2 = parts[2].region_type == MemoryRegionType::Empty || count - 1 + c0 + c1
            < MAX_MEMORY_MAP_SIZE;
        f0 && f1 && f2
    }

    /// Cuts the pages `start_addr..end_addr` out of the usable region holding
    /// them and gives them `region_type`; the rest of that region keeps its type.
    pub fn partition_memory_region(
        &mut self,
        start_addr: u64,
        end_addr: u64,
        region_type: MemoryRegionType,
    ) -> (r: Result<[MemoryRegion; 3], PartitionError>)
        requires
            old(self).wf(),
            old(self).partition_fits(start_addr, end_addr, region_type),
        ensures
            final(self).wf(),
            forall|x: MemoryRegion|
                old(self).regions().contains(x) && !usable_type(x.region_type)
                    ==> #[trigger] final(self).regions().contains(x),
            match old(self).partition_check(start_addr, end_addr, region_type) {
                Err(e) => {
                    &&& r == Err::<[MemoryRegion; 3], PartitionError>(e)
                    &&& final(self).entries() == old(self).entries()
                    &&& final(self).next() == old(self).next()
                },
                Ok(region) => {
                    let parts = partition_parts(region, start_addr, end_addr, region_type);
                    &&& start_addr < end_addr ==> final(self).regions().contains(
                        frames_region(start_addr, end_addr, region_type),
                    )
                    &&& r matches Ok(arr) && arr@ == parts
                    &&& final(self).tidy()
                    &&& final(self).regions() == add_part(
                        add_part(add_part(old(self).regions().remove(region), parts[0]), parts[1]),
                        parts[2],
                    )
                },
            },
            old(self).partition_check(start_addr, end_addr, region_type) is Ok ==> partitioned(
                *old(self),
                *final(self),
                start_addr,
                end_addr,
                region_type,
            ),
    {
        proof {
            reveal(MemoryMap::partition_fits);
        }
        match self.check_partition(start_addr, end_addr, region_type) {
            Err(e) => Err(e),
            Ok(region) => {
                let ghost ls = self.lookup(start_addr as int)->0;
                proof {
                    lemma_lookup_from(self.entries(), self.next(), start_addr as int, 0);
                    lemma_find_from(self.entries(), self.next(), region, 0);
                    assert(self.entries()[ls] == region);
                    assert(intersects_fits(self.entries()[ls].range, start_addr as int));
                }
                let parts = compute_parts(region, start_addr, end_addr, region_type);
                self.replace_with_parts(region, &parts);
                proof {
                    broadcast use vstd::multiset::group_multiset_axioms;

                    lemma_partition_middle(region, start_addr, end_addr, region_type);
                    let m0 = old(self).regions().remove(region);
                    let m1 = add_part(m0, parts@[0]);
                    let m2 = add_part(m1, parts@[1]);
                    if start_addr < end_addr {
                        assert(start_addr / PAGE_SIZE < end_addr / PAGE_SIZE);
                        assert(m2.contains(parts@[1]));
                    }
                    assert forall|x: MemoryRegion|
                        old(self).regions().contains(x) && !usable_type(x.region_type) implies #[trigger] self.regions().contains(x) by {
                        assert(x != region);
                        assert(m0.contains(x));
                        assert(m1.contains(x));
                        assert(m2.contains(x));
                    }
                }
                Ok(parts)
            },
        }
    }
}

proof fn lemma_find_reaches(s: Seq<MemoryRegion>, next: int, region: MemoryRegion, from: int, i: int)
    requires
        0 <= from <= i < next,
        next <= s.len(),
        s[i] == region,
    ensures
        find_from(s, next, region, from) is Some,
    decreases i - from,
{
    if s[from] != region {
        lemma_find_reaches(s, next, region, from + 1, i);
    }
}

/// A region of a well-formed map is held by one of its used slots, so removing
/// it succeeds.
pub proof fn lemma_region_removable(m: MemoryMap, region: MemoryRegion)
    requires
        m.wf(),
        m.regions().contains(region),
    ensures
        find_from(m.entries(), m.next(), region, 0) is Some,
{
    broadcast use {
        vstd::multiset::group_multiset_axioms,
        vstd::seq_lib::group_to_multiset_ensures,
    };

    assert(m.regions().count(region) > 0);
    assert(!range_empty(region.range));
    assert(m.entries().to_multiset().count(region) > 0);
    assert(m.entries().contains(region));
    let i = choose|i: int| 0 <= i < m.entries().len() && m.entries()[i] == region;
    assert(i < m.next());
    lemma_find_reaches(m.entries(), m.next(), region, 0, i);
}

/// Removing a region right after adding it gives back the regions the map had:
/// the removal finds the region, and the regions after it are those before the
/// addition.
pub proof fn lemma_remove_undoes_add(before: MemoryMap, after: MemoryMap, region: MemoryRegion)
    requires
        after.wf(),
        !range_empty(region.range),
        after.regions() == before.regions().insert(region),
    ensures
        find_from(after.entries(), after.next(), region, 0) is Some,
        after.regions().remove(region) == before.regions(),
{
    broadcast use vstd::multiset::group_multiset_axioms;

    assert(after.regions().contains(region));
    lemma_region_removable(after, region);
    assert(after.regions().remove(region) =~= before.regions());
}

/// The number of frames a partition part adds to the map.
pub open spec fn part_frames(p: MemoryRegion) -> int {
    if part_added(p) {
        p.range.end_frame_number - p.range.start_frame_number
    } else {
        0
    }
}

/// A partition of a usable region at page-aligned addresses inside it keeps
/// every frame: the parts together hold as many frames as the region, the middle
/// part has the new type and the others keep the region's type.
pub proof fn lemma_partition_keeps_frames(
    region: MemoryRegion,
    start_addr: u64,
    end_addr: u64,
    region_type: MemoryRegionType,
)
    requires
        usable_type(region.region_type),
        region_type != MemoryRegionType::Empty,
        start_addr % PAGE_SIZE == 0,
        end_addr % PAGE_SIZE == 0,
        start_of(region.range) <= start_addr < end_addr <= end_of(region.range),
    ensures
        ({
            let parts = partition_parts(region, start_addr, end_addr, region_type);
            &&& part_frames(parts[0]) + part_frames(parts[1]) + part_frames(parts[2])
                == region.range.end_frame_number - region.range.start_frame_number
            &&& parts[1].region_type == region_type
            &&& part_added(parts[0]) ==> parts[0].region_type == region.region_type
            &&& part_added(parts[2]) ==> parts[2].region_type == region.region_type
            &&& parts[1].range.start_frame_number <= start_addr / PAGE_SIZE
            &&& parts[1].range.end_frame_number >= end_addr / PAGE_SIZE
        }),
{
    let s = region.range.start_frame_number as int;
    let e = region.range.end_frame_number as int;
    let a = start_addr as int / 4096;
    let b = end_addr as int / 4096;
    assert(start_addr == a * 4096 && end_addr == b * 4096);
    assert(s <= a < b <= e) by (nonlinear_arith)
        requires
            s * 4096 <= a * 4096,
            a * 4096 < b * 4096,
            b * 4096 <= e * 4096,
    ;
    assert(abs_diff(s * 4096, a * 4096) < 4096 <==> s == a) by (nonlinear_arith)
        requires
            s <= a,
    ;
    assert(abs_diff(e * 4096, b * 4096) < 4096 <==> e == b) by (nonlinear_arith)
        requires
            b <= e,
    ;
    assert(start_of(region.range) == s * 4096);
    assert(end_of(region.range) == e * 4096);
    let parts = partition_parts(region, start_addr, end_addr, region_type);
    let low = abs_diff(start_of(region.range), start_addr as int) < PAGE_SIZE;
    let high = abs_diff(end_of(region.range), end_addr as int) < PAGE_SIZE;
    assert(low <==> s == a);
    assert(high <==> e == b);
    assert(start_addr / PAGE_SIZE == a);
    assert(end_addr / PAGE_SIZE == b);
    assert(part_frames(parts[0]) == if low { 0 } else { a - s });
    assert(part_frames(parts[1]) == (if high { e } else { b }) - (if low { s } else { a }));
    assert(part_frames(parts[2]) == if high { 0 } else { e - b });
}

/// The E820 type codes stand for the region types the E820 standard gives them:
/// 1 usable memory, 2 reserved, 3 ACPI reclaimable, 4 ACPI NVS, 5 bad memory.
pub proof fn lemma_e820_type_codes()
    ensures
        e820_type(1) == MemoryRegionType::Usable,
        e820_type(2) == MemoryRegionType::Reserved,
        e820_type(3) == MemoryRegionType::AcpiReclaimable,
        e820_type(4) == MemoryRegionType::AcpiNvs,
        e820_type(5) == MemoryRegionType::BadMemory,
{
}

/// The checks of a partition refuse, in this order: the empty type, a start
/// and then an end that is not page-aligned, a last or first byte that lies in
/// no region of the map, and first and last bytes in different regions.
pub proof fn lemma_partition_check_errors(m: MemoryMap, start_addr: u64, end_addr: u64, region_type: MemoryRegionType)
    ensures
        region_type == MemoryRegionType::Empty ==> m.partition_check(start_addr, end_addr, region_type)
            == Err::<MemoryRegion, PartitionError>(PartitionError::InvalidRegionType),
        region_type != MemoryRegionType::Empty && start_addr % 4096 != 0 ==> m.partition_check(
            start_addr,
            end_addr,
            region_type,
        ) == Err::<MemoryRegion, PartitionError>(PartitionError::AddrIsNotAligned(start_addr)),
        region_type != MemoryRegionType::Empty && start_addr % 4096 == 0 && end_addr % 4096 != 0
            ==> m.partition_check(start_addr, end_addr, region_type) == Err::<MemoryRegion, PartitionError>(
            PartitionError::AddrIsNotAligned(end_addr),
        ),
        region_type != MemoryRegionType::Empty && start_addr % 4096 == 0 && end_addr % 4096 == 0 && (m.lookup(
            end_addr - 1,
        ) is None || m.lookup(start_addr as int) is None) ==> m.partition_check(start_addr, end_addr, region_type)
            == Err::<MemoryRegion, PartitionError>(PartitionError::AddrDoesNotExist),
        region_type != MemoryRegionType::Empty && start_addr % 4096 == 0 && end_addr % 4096 == 0 && m.lookup(
            end_addr - 1,
        ) is Some && m.lookup(start_addr as int) is Some && m.entries()[m.lookup(start_addr as int)->0]
            != m.entries()[m.lookup(end_addr - 1)->0] ==> m.partition_check(start_addr, end_addr, region_type)
            == Err::<MemoryRegion, PartitionError>(
            PartitionError::NotSameRegion(
                m.entries()[m.lookup(start_addr as int)->0],
                m.entries()[m.lookup(end_addr - 1)->0],
            ),
        ),
{
}

/// A partition goes through exactly on usable memory: page-aligned bounds whose
/// first and last byte lie in one region of the map pass the checks when that
/// region is usable or usable but dangerous, and give that region; on a region
/// of any other type the partition is refused with that region.
pub proof fn lemma_partition_checks_region_type(
    m: MemoryMap,
    start_addr: u64,
    end_addr: u64,
    region_type: MemoryRegionType,
)
    requires
        region_type != MemoryRegionType::Empty,
        start_addr % 4096 == 0,
        end_addr % 4096 == 0,
        m.lookup(start_addr as int) is Some,
        m.lookup(end_addr - 1) is Some,
        m.entries()[m.lookup(start_addr as int)->0] == m.entries()[m.lookup(end_addr - 1)->0],
    ensures
        ({
            let region = m.entries()[m.lookup(start_addr as int)->0];
            &&& (region.region_type == MemoryRegionType::Usable || region.region_type
                == MemoryRegionType::UsableButDangerous) ==> m.partition_check(start_addr, end_addr, region_type)
                == Ok::<MemoryRegion, PartitionError>(region)
            &&& !(region.region_type == MemoryRegionType::Usable || region.region_type
                == MemoryRegionType::UsableButDangerous) ==> m.partition_check(start_addr, end_addr, region_type)
                == Err::<MemoryRegion, PartitionError>(PartitionError::RegionTypeIsNotUsable(region))
        }),
{
}

} // verus!

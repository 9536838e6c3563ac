//! 64-bit page table entries and tables as the bootloader builds them.
use vstd::prelude::*;

verus! {

/// The number of entries in a page table.
pub const ENTRY_COUNT: usize = 512;

/// The bits of an entry that hold the physical address.
pub const ADDRESS_MASK: u64 = 0x000f_ffff_ffff_f000;

/// The bits of an entry that have a defined flag.
pub const FLAGS_MASK: u64 = 0xfff0_0000_0000_0fff;

/// Whether `v` sets no bit of an entry's address field.
pub open spec fn flag_bits_only(v: u64) -> bool {
    (v / 0x1000) % 0x100_0000_0000 == 0
}

/// Possible flags for a page table entry, held as their bits; they never touch
/// the address field.
#[derive(Debug, Clone, Copy, PartialEq, Eq, Structural)]
pub struct PageTableFlags {
    bits: u64,
}

impl PageTableFlags {
    pub closed spec fn value(self) -> u64 {
        self.bits
    }

    #[verifier::type_invariant]
    closed spec fn inv(self) -> bool {
        flag_bits_only(self.bits)
    }


    /// Specifies whether the mapped frame or page table is loaded in memory.
    pub fn present() -> (r: PageTableFlags)
        ensures
            r.value() == 1,
    {
        PageTableFlags { bits: 1 }
    }

    /// Controls whether writes to the mapped frames are allowed.
    pub fn writable() -> (r: PageTableFlags)
        ensures
            r.value() == 2,
    {
        PageTableFlags { bits: 2 }
    }

    /// Controls whether accesses from userspace (i.e. ring 3) are permitted.
    pub fn user_accessible() -> (r: PageTableFlags)
        ensures
            r.value() == 4,
    {
        PageTableFlags { bits: 4 }
    }

    /// A write-through policy is used for the cache, else a write-back policy.
    pub fn write_through() -> (r: PageTableFlags)
        ensures
            r.value() == 8,
    {
        PageTableFlags { bits: 8 }
    }

    /// Disables caching for the pointed entry.
    pub fn no_cache() -> (r: PageTableFlags)
        ensures
            r.value() == 16,
    {
        PageTableFlags { bits: 16 }
    }

    /// Set by the CPU when the mapped frame or page table is accessed.
    pub fn accessed() -> (r: PageTableFlags)
        ensures
            r.value() == 32,
    {
        PageTableFlags { bits: 32 }
    }

    /// Set by the CPU on a write to the mapped frame.
    pub fn dirty() -> (r: PageTableFlags)
        ensures
            r.value() == 64,
    {
        PageTableFlags { bits: 64 }
    }

    /// The entry maps a huge frame instead of a page table.
    pub fn huge_page() -> (r: PageTableFlags)
        ensures
            r.value() == 128,
    {
        PageTableFlags { bits: 128 }
    }

    /// The mapping is present in all address spaces.
    pub fn global() -> (r: PageTableFlags)
        ensures
            r.value() == 256,
    {
        PageTableFlags { bits: 256 }
    }

    /// Forbid code execution from the mapped frames.
    pub fn no_execute() -> (r: PageTableFlags)
        ensures
            r.value() == 0x8000_0000_0000_0000,
    {
        PageTableFlags { bits: 0x8000_0000_0000_0000 }
    }

    /// The set containing no flag.
    pub fn empty() -> (r: PageTableFlags)
        ensures
            r.value() == 0,
    {
        PageTableFlags { bits: 0 }
    }

    /// The flags whose bits are set in `bits`; bits without a defined flag are dropped.
    pub fn from_bits_truncate(bits: u64) -> (r: PageTableFlags)
        ensures
            r.value() == bits & FLAGS_MASK,
    {
        proof {
            lemma_entry_bits(0, 0, 0, 0, bits);
        }
        PageTableFlags { bits: bits & FLAGS_MASK }
    }

    /// The raw bits of the flags.
    pub fn bits(&self) -> (r: u64)
        ensures
            r == self.value(),
    {
        self.bits
    }

    /// The flags set in either operand.
    pub fn union(self, other: PageTableFlags) -> (r: PageTableFlags)
        ensures
            r.value() == self.value() | other.value(),
    {
        proof {
            use_type_invariant(&self);
            use_type_invariant(&other);
            lemma_entry_bits(0, 0, self.bits, other.bits, 0);
        }
        PageTableFlags { bits: self.bits | other.bits }
    }

    /// Whether every flag of `other` is set in `self`.
    pub fn contains(&self, other: PageTableFlags) -> (r: bool)
        ensures
            r == (self.value() & other.value() == other.value()),
    {
        self.bits & other.bits == other.bits
    }
}

/// A 64-bit page table entry.
#[derive(Debug, Clone, Copy, PartialEq, Eq, Structural)]
pub struct PageTableEntry {
    entry: u64,
}

impl PageTableEntry {
    /// The raw value of the entry.
    pub closed spec fn value(self) -> u64 {
        self.entry
    }

    /// Creates an unused page table entry.
    pub fn new() -> (r: PageTableEntry)
        ensures
            r.value() == 0,
    {
        PageTableEntry { entry: 0 }
    }

    /// Returns the flags of this entry.
    pub fn flags(&self) -> (r: PageTableFlags)
        ensures
            r.value() == self.value() & FLAGS_MASK,
    {
        PageTableFlags::from_bits_truncate(self.entry)
    }

    /// Returns the physical address mapped by this entry, might be zero.
    pub fn addr(&self) -> (r: u64)
        ensures
            r == self.value() & ADDRESS_MASK,
    {
        self.entry & ADDRESS_MASK
    }

    /// Map the entry to the specified physical address with the specified flags.
    pub fn set_addr(&mut self, addr: u64, flags: PageTableFlags)
        requires
            addr % 4096 == 0,
        ensures
            final(self).value() == addr | flags.value(),
            addr < 0x10_0000_0000_0000 ==> final(self).value() & ADDRESS_MASK == addr && final(self).value()
                & FLAGS_MASK == flags.value(),
    {
        proof {
            use_type_invariant(&flags);
            if addr < 0x10_0000_0000_0000 {
                lemma_entry_bits(addr, flags.bits, 0, 0, 0);
            }
        }
        self.entry = addr | flags.bits();
    }

    /// Returns whether this entry is zero.
    pub fn is_unused(&self) -> (r: bool)
        ensures
            r == (self.value() == 0),
    {
        self.entry == 0
    }

    /// Sets this entry to zero.
    pub fn set_unused(&mut self)
        ensures
            final(self).value() == 0,
    {
        self.entry = 0;
    }

    /// Sets the flags of this entry, keeping its address.
    pub fn set_flags(&mut self, flags: PageTableFlags)
        ensures
            final(self).value() == (old(self).value() & ADDRESS_MASK) | flags.value(),
            final(self).value() & ADDRESS_MASK == old(self).value() & ADDRESS_MASK,
            final(self).value() & FLAGS_MASK == flags.value(),
    {
        proof {
            use_type_invariant(&flags);
            lemma_entry_bits(0, flags.bits, 0, 0, self.entry);
            lemma_entry_bits(self.entry & ADDRESS_MASK, flags.bits, 0, 0, 0);
        }
        self.entry = self.addr() | flags.bits();
    }
}

/// The bit facts of entries: an address with its low 12 and high 12 bits clear
/// and flags outside the address field make an entry whose address and flags
/// read back as given, which is zero exactly when both are; masking keeps
/// flags outside the address field.
proof fn lemma_entry_bits(a: u64, f: u64, g: u64, h: u64, x: u64)
    requires
        a & FLAGS_MASK == 0 || (a % 4096 == 0 && a < 0x10_0000_0000_0000),
        flag_bits_only(f),
        flag_bits_only(g),
        flag_bits_only(h),
    ensures
        (a | f) & ADDRESS_MASK == a,
        (a | f) & FLAGS_MASK == f,
        ((a | f) == 0) == (a == 0 && f == 0),
        f & ADDRESS_MASK == 0,
        (x & ADDRESS_MASK) & FLAGS_MASK == 0,
        flag_bits_only(g | h),
        flag_bits_only(x & FLAGS_MASK),
{
    assert({
        &&& (a | f) & ADDRESS_MASK == a
        &&& (a | f) & FLAGS_MASK == f
        &&& ((a | f) == 0) == (a == 0 && f == 0)
        &&& f & ADDRESS_MASK == 0
        &&& (x & ADDRESS_MASK) & FLAGS_MASK == 0
        &&& ((g | h) / 0x1000) % 0x100_0000_0000 == 0
        &&& ((x & FLAGS_MASK) / 0x1000) % 0x100_0000_0000 == 0
    }) by (bit_vector)
        requires
            a & FLAGS_MASK == 0 || (a % 4096 == 0 && a < 0x10_0000_0000_0000),
            (f / 0x1000) % 0x100_0000_0000 == 0,
            (g / 0x1000) % 0x100_0000_0000 == 0,
            (h / 0x1000) % 0x100_0000_0000 == 0,
    ;
}

/// An entry set to a page address below 2^52 and some flags reads back that
/// address and those flags, and is unused exactly when the address is zero and
/// the flags are empty.
pub proof fn lemma_entry_round_trip(addr: u64, flags: u64)
    requires
        addr % 4096 == 0,
        addr < 0x10_0000_0000_0000,
        flag_bits_only(flags),
    ensures
        (addr | flags) & ADDRESS_MASK == addr,
        (addr | flags) & FLAGS_MASK == flags,
        ((addr | flags) == 0) == (addr == 0 && flags == 0),
{
    lemma_entry_bits(addr, flags, 0, 0, 0);
}

/// A page table: `ENTRY_COUNT` entries.
pub struct PageTable {
    entries: Vec<PageTableEntry>,
}

impl PageTable {
    pub closed spec fn view(&self) -> Seq<PageTableEntry> {
        self.entries@
    }

    pub open spec fn wf(&self) -> bool {
        self@.len() == ENTRY_COUNT
    }

    /// Creates an empty page table.
    pub fn new() -> (r: PageTable)
        ensures
            r.wf(),
            forall|i: int| 0 <= i < ENTRY_COUNT ==> (#[trigger] r@[i]).value() == 0,
    {
        let mut entries: Vec<PageTableEntry> = Vec::new();
        while entries.len() < ENTRY_COUNT
            invariant
                entries@.len() <= ENTRY_COUNT,
                forall|i: int| 0 <= i < entries@.len() ==> (#[trigger] entries@[i]).value() == 0,
            decreases ENTRY_COUNT - entries.len(),
        {
            entries.push(PageTableEntry::new());
        }
        PageTable { entries }
    }

    /// The entries of the page table.
    pub fn iter(&self) -> (r: &[PageTableEntry])
        ensures
            r@ == self@,
    {
        self.entries.as_slice()
    }

    /// Clears all entries.
    pub fn zero(&mut self)
        requires
            old(self).wf(),
        ensures
            final(self).wf(),
            forall|i: int| 0 <= i < ENTRY_COUNT ==> (#[trigger] final(self)@[i]).value() == 0,
    {
        let mut i: usize = 0;
        while i < self.entries.len()
            invariant
                self.wf(),
                i <= ENTRY_COUNT,
                forall|k: int| 0 <= k < i ==> (#[trigger] self@[k]).value() == 0,
            decreases ENTRY_COUNT - i,
        {
            let mut entry = self.entries[i];
            entry.set_unused();
            self.entries.set(i, entry);
            i = i + 1;
        }
    }

    /// The entries of the page table, to be changed in place.
    pub fn iter_mut(&mut self) -> (r: &mut [PageTableEntry])
        ensures
            r@ == old(self)@,
            final(self)@ == final(r)@,
    {
        self.entries.as_mut_slice()
    }

    /// The entry at `index`.
    pub fn get(&self, index: usize) -> (r: PageTableEntry)
        requires
            self.wf(),
            index < ENTRY_COUNT,
        ensures
            r == self@[index as int],
    {
        self.entries[index]
    }

    /// Replaces the entry at `index`.
    pub fn set(&mut self, index: usize, entry: PageTableEntry)
        requires
            old(self).wf(),
            index < ENTRY_COUNT,
        ensures
            final(self).wf(),
            final(self)@ == old(self)@.update(index as int, entry),
    {
        self.entries.set(index, entry);
    }
}

/// A 9-bit index into a page table: always below `ENTRY_COUNT`.
#[derive(Debug, Clone, Copy, PartialEq, Eq, Structural)]
pub struct PageTableIndex(u16);

impl PageTableIndex {
    pub closed spec fn value(self) -> u16 {
        self.0
    }

    /// Every index is below `ENTRY_COUNT`.
    #[verifier::type_invariant]
    pub closed spec fn below_entry_count(self) -> bool {
        self.0 < ENTRY_COUNT
    }

    pub broadcast proof fn lemma_bound(i: PageTableIndex)
        requires
            i.below_entry_count(),
        ensures
            #[trigger] i.value() < ENTRY_COUNT,
    {
    }

    /// Creates a new index from the given `u16`; the value must be below 512.
    pub fn new(index: u16) -> (r: PageTableIndex)
        requires
            index < ENTRY_COUNT,
        ensures
            r.value() == index,
    {
        PageTableIndex(index)
    }

    /// Creates a new index from the given `u16`, throwing away the bits above 512.
    pub fn new_truncate(index: u16) -> (r: PageTableIndex)
        ensures
            r.value() == index % 512,
    {
        PageTableIndex(index % (ENTRY_COUNT as u16))
    }

    pub fn as_u16(self) -> (r: u16)
        ensures
            r == self.value(),
    {
        self.0
    }

    pub fn as_u32(self) -> (r: u32)
        ensures
            r == self.value(),
    {
        self.0 as u32
    }

    pub fn as_u64(self) -> (r: u64)
        ensures
            r == self.value(),
    {
        self.0 as u64
    }

    pub fn as_usize(self) -> (r: usize)
        ensures
            r == self.value(),
    {
        self.0 as usize
    }
}

/// Size in bytes of one page table.
pub const PAGE_TABLE_SIZE: usize = 4096;

/// Hands out consecutive page tables from a reserved address window.
pub struct PageTableAllocator {
    index: usize,
    start_addr: usize,
    end_addr: usize,
}

impl PageTableAllocator {
    pub closed spec fn index(&self) -> usize {
        self.index
    }

    pub closed spec fn start(&self) -> usize {
        self.start_addr
    }

    pub closed spec fn end(&self) -> usize {
        self.end_addr
    }

    /// The address of the next table that `next` considers.
    pub open spec fn next_addr(&self) -> int {
        self.start() + PAGE_TABLE_SIZE * self.index()
    }

    pub fn new(p2_start_addr: usize, p2_end_addr: usize) -> (r: PageTableAllocator)
        ensures
            r.index() == 0,
            r.start() == p2_start_addr,
            r.end() == p2_end_addr,
    {
        PageTableAllocator { index: 0, start_addr: p2_start_addr, end_addr: p2_end_addr }
    }

    /// Returns the address of the next free table, or `None` when the next table
    /// would start past the end of the window.
    pub fn next(&mut self) -> (r: Option<usize>)
        requires
            old(self).next_addr() <= isize::MAX - 15,
        ensures
            final(self).start() == old(self).start(),
            final(self).end() == old(self).end(),
            old(self).next_addr() > old(self).end() ==> r is None && final(self).index()
                == old(self).index(),
            old(self).next_addr() <= old(self).end() ==> r == Some(old(self).next_addr() as usize)
                && final(self).index() == old(self).index() + 1,
    {
        let addr = self.start_addr + PAGE_TABLE_SIZE * self.index;
        if addr > self.end_addr {
            return None;
        }
        self.index = self.index + 1;
        Some(addr)
    }
}

} // verus!

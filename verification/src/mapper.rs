//! A page table hierarchy reached through an offset mapping of the physical
//! memory: the table at physical address `p` lies at virtual address
//! `phys_offset + p`.
use vstd::prelude::*;
use crate::page::VirtAddr;
use crate::pagetable::PageTable;

verus! {

/// A mapper whose page tables are reached at `phys_offset` plus their physical
/// address.
pub struct OffsetPageTable {
    level_2_table: PageTable,
    phys_offset: VirtAddr,
}

impl OffsetPageTable {
    pub closed spec fn table(&self) -> PageTable {
        self.level_2_table
    }

    pub closed spec fn offset(&self) -> VirtAddr {
        self.phys_offset
    }

    /// Creates a mapper over the given level 2 table that reaches tables at
    /// `phys_offset` plus their physical address.
    pub fn new(level_2_table: PageTable, phys_offset: VirtAddr) -> (r: OffsetPageTable)
        ensures
            r.table() == level_2_table,
            r.offset() == phys_offset,
    {
        OffsetPageTable { level_2_table, phys_offset }
    }

    /// Returns a mutable reference to the wrapped level 2 table.
    pub fn level_2_table(&mut self) -> (r: &mut PageTable)
        ensures
            *r == old(self).table(),
            final(self).table() == *final(r),
            final(self).offset() == old(self).offset(),
    {
        &mut self.level_2_table
    }

    /// The virtual address at which the table in the frame at `frame_start` lies.
    pub fn frame_to_pointer(&self, frame_start: u32) -> (r: VirtAddr)
        requires
            self.offset().0 + frame_start <= u32::MAX,
        ensures
            r.0 == self.offset().0 + frame_start,
    {
        VirtAddr::new(self.phys_offset.0 + frame_start)
    }
}

} // verus!

//! The information the bootloader passes to the kernel: the memory map and
//! the cores with their stacks.
use vstd::prelude::*;
use crate::memory_map::MemoryMap;

verus! {

/// The number of interrupt stacks every core gets for its TSS.
pub const TSS_STACKS_PER_CPU: usize = 8;

/// The number of core slots in the boot information.
pub const MAX_CORES: usize = 256;

/// The stacks of one core's task state segment.
#[derive(Clone, Copy, PartialEq, Eq)]
pub struct TSS {
    /// Stack start addresses for TSS
    stack_start_addr: [u32; TSS_STACKS_PER_CPU],
    /// Stack end addresses for TSS
    pub stack_end_addr: [u32; TSS_STACKS_PER_CPU],
}

/// The stack start address a slot holds, where zero means none.
pub open spec fn stored_addr(v: u32) -> Option<u32> {
    if v == 0 {
        None
    } else {
        Some(v)
    }
}

/// The APIC id a slot holds, where `u16::MAX` means none.
pub open spec fn stored_apic_id(v: u16) -> Option<u8> {
    if v == u16::MAX {
        None
    } else {
        Some(v as u8)
    }
}

impl TSS {
    /// The stack start addresses, zero where none is set.
    pub closed spec fn starts(&self) -> Seq<u32> {
        self.stack_start_addr@
    }

    /// The stack end addresses.
    pub closed spec fn ends(&self) -> Seq<u32> {
        self.stack_end_addr@
    }

    /// A TSS holds one start and one end address for each of its stacks.
    pub proof fn lemma_stack_count(&self)
        ensures
            self.starts().len() == TSS_STACKS_PER_CPU,
            self.ends().len() == TSS_STACKS_PER_CPU,
    {
    }

    pub fn set_stack_start(&mut self, index: usize, addr: u32)
        requires
            index < TSS_STACKS_PER_CPU,
        ensures
            final(self).starts() == old(self).starts().update(index as int, addr),
            final(self).ends() == old(self).ends(),
    {
        self.stack_start_addr[index] = addr;
    }

    /// Sets the end address of stack `index`.
    pub fn set_stack_end(&mut self, index: usize, addr: u32)
        requires
            index < TSS_STACKS_PER_CPU,
        ensures
            final(self).ends() == old(self).ends().update(index as int, addr),
            final(self).starts() == old(self).starts(),
    {
        self.stack_end_addr[index] = addr;
    }

    pub fn get_stack_start(&self, index: usize) -> (r: Option<u32>)
        requires
            index < TSS_STACKS_PER_CPU,
        ensures
            r == stored_addr(self.starts()[index as int]),
    {
        let val = self.stack_start_addr[index];
        if val == 0 {
            None
        } else {
            Some(val)
        }
    }
}

/// A physical core: its APIC id and its stacks.
#[derive(Clone, Copy, PartialEq, Eq)]
pub struct Core {
    apic_id: u16,
    /// Start address of stack for physical core
    stack_start_addr: u32,
    /// End address of stack for physical core
    pub stack_end_addr: u32,
    /// Stacks for tss
    pub tss: TSS,
}

impl Core {
    pub closed spec fn apic(&self) -> u16 {
        self.apic_id
    }

    pub closed spec fn stack_start(&self) -> u32 {
        self.stack_start_addr
    }

    pub closed spec fn stack_end(&self) -> u32 {
        self.stack_end_addr
    }

    pub closed spec fn tss_view(&self) -> TSS {
        self.tss
    }

    /// A core with no APIC id and no stacks.
    pub fn empty() -> (r: Core)
        ensures
            r.apic() == u16::MAX,
            r.stack_start() == 0,
            r.stack_end() == 0,
            forall|i: int| 0 <= i < TSS_STACKS_PER_CPU ==> #[trigger] r.tss_view().starts()[i] == 0
                && r.tss_view().ends()[i] == 0,
            r.tss_view().starts().len() == TSS_STACKS_PER_CPU,
    {
        Core {
            apic_id: u16::MAX,
            stack_start_addr: 0,
            stack_end_addr: 0,
            tss: TSS { stack_start_addr: [0; TSS_STACKS_PER_CPU], stack_end_addr: [0; TSS_STACKS_PER_CPU] },
        }
    }

    pub fn set_apic_id(&mut self, addr: u8)
        ensures
            final(self).apic() == addr as u16,
            final(self).stack_start() == old(self).stack_start(),
            final(self).stack_end() == old(self).stack_end(),
            final(self).tss_view() == old(self).tss_view(),
    {
        self.apic_id = addr as u16;
    }

    pub fn get_apic_id(&self) -> (r: Option<u8>)
        ensures
            r == stored_apic_id(self.apic()),
    {
        if self.apic_id == u16::MAX {
            None
        } else {
            Some(self.apic_id as u8)
        }
    }

    pub fn set_stack_start(&mut self, addr: u32)
        ensures
            final(self).stack_start() == addr,
            final(self).apic() == old(self).apic(),
            final(self).stack_end() == old(self).stack_end(),
            final(self).tss_view() == old(self).tss_view(),
    {
        self.stack_start_addr = addr;
    }

    /// Sets the end address of the core's stack.
    pub fn set_stack_end(&mut self, addr: u32)
        ensures
            final(self).stack_end() == addr,
            final(self).stack_start() == old(self).stack_start(),
            final(self).apic() == old(self).apic(),
            final(self).tss_view() == old(self).tss_view(),
    {
        self.stack_end_addr = addr;
    }

    /// Sets the start and end address of the core's TSS stack `index`.
    pub fn set_tss_stack(&mut self, index: usize, start: u32, end: u32)
        requires
            index < TSS_STACKS_PER_CPU,
        ensures
            final(self).tss_view().starts() == old(self).tss_view().starts().update(index as int, start),
            final(self).tss_view().ends() == old(self).tss_view().ends().update(index as int, end),
            final(self).stack_start() == old(self).stack_start(),
            final(self).stack_end() == old(self).stack_end(),
            final(self).apic() == old(self).apic(),
    {
        self.tss.set_stack_start(index, start);
        self.tss.set_stack_end(index, end);
    }

    pub fn get_stack_start(&self) -> (r: Option<u32>)
        ensures
            r == stored_addr(self.stack_start()),
    {
        if self.stack_start_addr == 0 {
            None
        } else {
            Some(self.stack_start_addr)
        }
    }
}

/// The core slots and the number of cores found and booted.
pub struct Cores {
    cores: Vec<Core>,
    pub num_booted_cores: u16,
    pub num_cores: u32,
}

/// The first of the first `n` cores whose APIC id is `id`.
pub open spec fn find_core(cores: Seq<Core>, n: int, id: u8, from: int) -> Option<int>
    decreases n - from,
{
    if from < 0 || from >= n || from >= cores.len() {
        None
    } else if cores[from].apic() == id as u16 {
        Some(from)
    } else {
        find_core(cores, n, id, from + 1)
    }
}

impl Cores {
    pub closed spec fn slots(&self) -> Seq<Core> {
        self.cores@
    }

    /// The number of cores found.
    pub closed spec fn count(&self) -> u32 {
        self.num_cores
    }

    /// The number of cores booted.
    pub closed spec fn booted(&self) -> u16 {
        self.num_booted_cores
    }

    /// Counts one more core found.
    pub fn add_found_core(&mut self)
        requires
            old(self).count() < u32::MAX,
        ensures
            final(self).count() == old(self).count() + 1,
            final(self).booted() == old(self).booted(),
            final(self).slots() == old(self).slots(),
    {
        self.num_cores = self.num_cores + 1;
    }

    /// Counts one more core booted.
    pub fn add_booted_core(&mut self)
        requires
            old(self).booted() < u16::MAX,
        ensures
            final(self).booted() == old(self).booted() + 1,
            final(self).count() == old(self).count(),
            final(self).slots() == old(self).slots(),
    {
        self.num_booted_cores = self.num_booted_cores + 1;
    }

    /// The number of cores found.
    pub fn num_cores(&self) -> (r: u32)
        ensures
            r == self.count(),
    {
        self.num_cores
    }

    pub open spec fn wf(&self) -> bool {
        self.slots().len() == MAX_CORES
    }

    /// No core found yet; every slot holds an empty core.
    pub fn empty() -> (r: Cores)
        ensures
            r.wf(),
            r.count() == 0,
            r.booted() == 0,
            forall|i: int| 0 <= i < MAX_CORES ==> (#[trigger] r.slots()[i]).apic() == u16::MAX
                && r.slots()[i].stack_start() == 0,
    {
        let mut cores: Vec<Core> = Vec::new();
        while cores.len() < MAX_CORES
            invariant
                cores@.len() <= MAX_CORES,
                forall|i: int| 0 <= i < cores@.len() ==> (#[trigger] cores@[i]).apic() == u16::MAX
                    && cores@[i].stack_start() == 0,
            decreases MAX_CORES - cores.len(),
        {
            cores.push(Core::empty());
        }
        Cores { cores, num_booted_cores: 0, num_cores: 0 }
    }

    /// Returns the first of the found cores with the given APIC id, and its index.
    pub fn get_by_apic_id(&self, id: u8) -> (r: Option<(&Core, usize)>)
        requires
            self.wf(),
        ensures
            match find_core(self.slots(), self.count() as int, id, 0) {
                Some(i) => r matches Some((c, j)) && j == i && *c == self.slots()[i],
                None => r is None,
            },
    {
        let n = if (self.num_cores as usize) < MAX_CORES {
            self.num_cores as usize
        } else {
            MAX_CORES
        };
        let mut i: usize = 0;
        while i < n
            invariant
                self.wf(),
                n <= MAX_CORES,
                n == self.num_cores || (n == MAX_CORES && self.num_cores >= MAX_CORES),
                i <= n,
                find_core(self.slots(), self.count() as int, id, 0) == find_core(
                    self.slots(),
                    self.num_cores as int,
                    id,
                    i as int,
                ),
            decreases n - i,
        {
            if self.cores[i].apic_id == id as u16 {
                return Some((&self.cores[i], i));
            }
            i = i + 1;
        }
        None
    }

    /// The core in slot `i`.
    pub fn get(&self, i: usize) -> (r: &Core)
        requires
            self.wf(),
            i < MAX_CORES,
        ensures
            *r == self.slots()[i as int],
    {
        &self.cores[i]
    }

    /// Replaces the core in slot `i`.
    pub fn set(&mut self, i: usize, core: Core)
        requires
            old(self).wf(),
            i < MAX_CORES,
        ensures
            final(self).wf(),
            final(self).slots() == old(self).slots().update(i as int, core),
            final(self).count() == old(self).count(),
            final(self).booted() == old(self).booted(),
    {
        self.cores.set(i, core);
    }
}

/// The information that the bootloader passes to the kernel.
pub struct BootInfo {
    /// A map of the physical memory regions of the underlying machine.
    pub memory_map: MemoryMap,
    /// Address of the core start-up trampoline
    pub smp_trampoline: u32,
    pub physical_memory_offset: u64,
    pub page_table_addr: u32,
    pub kernel_entry_addr: u32,
    pub cores: Cores,
    /// The amount of physical memory available in bytes
    pub max_phys_memory: u64,
}

impl BootInfo {
    /// Create a new, empty boot information structure.
    pub fn new() -> (r: BootInfo)
        ensures
            r.memory_map.wf(),
            r.memory_map.tidy(),
            r.memory_map.next() == 0,
            r.cores.wf(),
            r.cores.count() == 0,
            r.cores.booted() == 0,
            r.smp_trampoline == 0,
            r.physical_memory_offset == 0,
            r.page_table_addr == 0,
            r.kernel_entry_addr == 0,
            r.max_phys_memory == 0,
    {
        BootInfo {
            memory_map: MemoryMap::new(),
            smp_trampoline: 0,
            physical_memory_offset: 0,
            page_table_addr: 0,
            kernel_entry_addr: 0,
            cores: Cores::empty(),
            max_phys_memory: 0,
        }
    }
}

/// A stack start address that was set reads back, unless it is zero, which
/// stands for no stack.
pub proof fn lemma_stack_start_reads_back(addr: u32)
    ensures
        addr != 0 ==> stored_addr(addr) == Some(addr),
        addr == 0 ==> stored_addr(addr) is None,
{
}

/// An APIC id that was set reads back.
pub proof fn lemma_apic_id_reads_back(id: u8)
    ensures
        stored_apic_id(id as u16) == Some(id),
{
}

/// Setting the stack of one TSS slot leaves the other slots as they were, and
/// the slot reads back the address (unless it is zero).
pub proof fn lemma_tss_slot_independent(before: TSS, after: TSS, index: int, addr: u32)
    requires
        0 <= index < before.starts().len(),
        after.starts() == before.starts().update(index, addr),
    ensures
        forall|j: int| 0 <= j < before.starts().len() && j != index ==> stored_addr(#[trigger] after.starts()[j]) == stored_addr(before.starts()[j]),
        addr != 0 ==> stored_addr(after.starts()[index]) == Some(addr),
{
}

} // verus!

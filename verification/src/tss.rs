//! The 32-bit task state segment.
use vstd::prelude::*;
use crate::page::VirtAddr;

verus! {

/// The EFLAGS register image, held as its bits.
#[derive(Debug, Clone, Copy, PartialEq, Eq, Structural)]
pub struct EFlags {
    pub bits: u32,
}

impl EFlags {
    /// The image with no flag set.
    pub fn empty() -> (r: EFlags)
        ensures
            r.bits == 0,
    {
        EFlags { bits: 0 }
    }
}

/// Stack pointer substruct with padding used in the TSS
#[derive(Debug, Clone, Copy)]
pub struct StackPointers {
    /// ESPn
    pub stack_segment_offset: VirtAddr,
    /// SSn
    pub stack_segment_selector: u16,
    /// Reserved, kept zero.
    pub reserved: u16,
}

impl StackPointers {
    /// Offset and selector are zero.
    pub open spec fn is_zero(&self) -> bool {
        self.stack_segment_offset.0 == 0 && self.stack_segment_selector == 0
    }

    /// The padding is zero.
    pub open spec fn padding_zero(&self) -> bool {
        self.reserved == 0
    }

    /// Initialize offset and selector to zero
    pub fn zero() -> (r: StackPointers)
        ensures
            r.is_zero(),
            r.padding_zero(),
    {
        StackPointers { stack_segment_offset: VirtAddr::zero(), stack_segment_selector: 0, reserved: 0 }
    }
}

/// The task state segment: the stack pointers of the privilege levels and the
/// register image of a suspended task.
#[derive(Debug, Clone, Copy)]
pub struct TaskStateSegment {
    /// Contains a copy of a task selector from previously executed task
    pub link: u16,
    /// Reserved, kept zero.
    pub reserved_1: u16,
    /// Contains the privilege 0,1,2 stack pointers for task
    pub stack_pointer: [StackPointers; 3],
    /// Contains the page translation table base address
    pub cr3: u32,
    /// Contains the Instruction Pointer
    pub eip: VirtAddr,
    /// Contains a copy of the EFLAGS image at the point the task is suspended
    pub eflags: EFlags,
    pub eax: u32,
    pub ecx: u32,
    pub edx: u32,
    pub ebx: u32,
    pub esp: u32,
    pub ebp: u32,
    pub esi: u32,
    pub edi: u32,
    pub es: u16,
    /// Reserved, kept zero.
    pub reserved2: u16,
    pub cs: u16,
    /// Reserved, kept zero.
    pub reserved3: u16,
    pub ss: u16,
    /// Reserved, kept zero.
    pub reserved4: u16,
    pub ds: u16,
    /// Reserved, kept zero.
    pub reserved5: u16,
    pub fs: u16,
    /// Reserved, kept zero.
    pub reserved6: u16,
    pub gs: u16,
    /// Reserved, kept zero.
    pub reserved7: u16,
    /// Contains the local descriptor table segment selector for the task
    pub ldt_selector: u16,
    /// Reserved, kept zero.
    pub reserved8: u32,
    /// The 16-bit offset to the I/O permission bit map from the TSS base.
    pub iomap_base: u16,
}

impl TaskStateSegment {
    /// Every field and stack pointer is zero.
    pub open spec fn is_zero(&self) -> bool {
        &&& self.link == 0
        &&& forall|i: int| 0 <= i < 3 ==> (#[trigger] self.stack_pointer@[i]).is_zero()
        &&& self.cr3 == 0 && self.eip.0 == 0 && self.eflags.bits == 0
        &&& self.eax == 0 && self.ecx == 0 && self.edx == 0 && self.ebx == 0
        &&& self.esp == 0 && self.ebp == 0 && self.esi == 0 && self.edi == 0
        &&& self.es == 0 && self.cs == 0 && self.ss == 0 && self.ds == 0
        &&& self.fs == 0 && self.gs == 0 && self.ldt_selector == 0
        &&& self.iomap_base == 0
    }

    /// All padding, that of the stack pointers too, is zero.
    pub open spec fn padding_zero(&self) -> bool {
        &&& self.reserved_1 == 0
        &&& forall|i: int| 0 <= i < 3 ==> (#[trigger] self.stack_pointer@[i]).padding_zero()
        &&& self.reserved2 == 0 && self.reserved3 == 0 && self.reserved4 == 0
        &&& self.reserved5 == 0 && self.reserved6 == 0 && self.reserved7 == 0
        &&& self.reserved8 == 0
    }

    /// Creates a new TSS with zeroed stack pointers, registers and `iomap_base`.
    pub fn new() -> (r: TaskStateSegment)
        ensures
            r.is_zero(),
            r.padding_zero(),
    {
        let sp = [StackPointers::zero(), StackPointers::zero(), StackPointers::zero()];
        TaskStateSegment {
            link: 0,
            reserved_1: 0,
            stack_pointer: sp,
            cr3: 0,
            eip: VirtAddr::zero(),
            eflags: EFlags::empty(),
            eax: 0,
            ecx: 0,
            edx: 0,
            ebx: 0,
            esp: 0,
            ebp: 0,
            esi: 0,
            edi: 0,
            es: 0,
            reserved2: 0,
            cs: 0,
            reserved3: 0,
            ss: 0,
            reserved4: 0,
            ds: 0,
            reserved5: 0,
            fs: 0,
            reserved6: 0,
            gs: 0,
            reserved7: 0,
            ldt_selector: 0,
            reserved8: 0,
            iomap_base: 0,
        }
    }
}

} // verus!

//! Interrupt vector numbers and the decisions of the chained 8259 PICs.
use vstd::prelude::*;

verus! {

/// Vector of the first interrupt of the primary PIC.
pub const PIC_1_OFFSET: u8 = 32;

/// Vector of the first interrupt of the secondary PIC.
pub const PIC_2_OFFSET: u8 = 40;

/// IDT index numbers.
#[derive(Debug, Clone, Copy, PartialEq, Eq, Structural)]
pub enum InterruptIndex {
    LegacyTimer,
    Keyboard,
    Pic2,
    COM2,
    COM1,
    IRQ5,
    FloppyController,
    MasterPicSpurious,
    RtcTimer,
    ACPI,
    ScsiNic1,
    Rtl8139,
    Mouse,
    MathCoProcessor,
    AtaChannel1,
    AtaChannel2,
    IRQ16,
    SlavePicSpurious,
    Timer,
    Spurious,
}

/// The vector number of an interrupt index.
pub open spec fn vector(i: InterruptIndex) -> u8 {
    match i {
        InterruptIndex::LegacyTimer => 32,
        InterruptIndex::Keyboard => 33,
        InterruptIndex::Pic2 => 34,
        InterruptIndex::COM2 => 35,
        InterruptIndex::COM1 => 36,
        InterruptIndex::IRQ5 => 37,
        InterruptIndex::FloppyController => 38,
        InterruptIndex::MasterPicSpurious => 39,
        InterruptIndex::RtcTimer => 40,
        InterruptIndex::ACPI => 41,
        InterruptIndex::ScsiNic1 => 42,
        InterruptIndex::Rtl8139 => 43,
        InterruptIndex::Mouse => 44,
        InterruptIndex::MathCoProcessor => 45,
        InterruptIndex::AtaChannel1 => 46,
        InterruptIndex::AtaChannel2 => 47,
        InterruptIndex::IRQ16 => 48,
        InterruptIndex::SlavePicSpurious => 49,
        InterruptIndex::Timer => 0xe0,
        InterruptIndex::Spurious => 0xff,
    }
}

/// The PIC mask byte that enables the line of vector `v` (a vector handled by
/// the PICs) and masks every other line of the same PIC.
pub open spec fn pic_enable_mask(v: u8) -> u8 {
    let diff = v - 32;
    let line = if diff > 7 {
        diff - 8
    } else {
        diff
    };
    if line < 8 {
        (0xff - pow2_line(line)) as u8
    } else {
        0xff
    }
}

/// Two to the power of a PIC line number below eight.
pub open spec fn pow2_line(line: int) -> int {
    if line == 0 {
        1
    } else if line == 1 {
        2
    } else if line == 2 {
        4
    } else if line == 3 {
        8
    } else if line == 4 {
        16
    } else if line == 5 {
        32
    } else if line == 6 {
        64
    } else {
        128
    }
}

impl InterruptIndex {
    pub fn as_u8(self) -> (r: u8)
        ensures
            r == vector(self),
    {
        match self {
            InterruptIndex::LegacyTimer => 32,
            InterruptIndex::Keyboard => 33,
            InterruptIndex::Pic2 => 34,
            InterruptIndex::COM2 => 35,
            InterruptIndex::COM1 => 36,
            InterruptIndex::IRQ5 => 37,
            InterruptIndex::FloppyController => 38,
            InterruptIndex::MasterPicSpurious => 39,
            InterruptIndex::RtcTimer => 40,
            InterruptIndex::ACPI => 41,
            InterruptIndex::ScsiNic1 => 42,
            InterruptIndex::Rtl8139 => 43,
            InterruptIndex::Mouse => 44,
            InterruptIndex::MathCoProcessor => 45,
            InterruptIndex::AtaChannel1 => 46,
            InterruptIndex::AtaChannel2 => 47,
            InterruptIndex::IRQ16 => 48,
            InterruptIndex::SlavePicSpurious => 49,
            InterruptIndex::Timer => 0xe0,
            InterruptIndex::Spurious => 0xff,
        }
    }

    pub fn as_usize(self) -> (r: usize)
        ensures
            r == vector(self),
    {
        self.as_u8() as usize
    }

    /// The PIC mask byte that enables this interrupt's line; only for the
    /// interrupts the PICs deliver (the local APIC vectors would shift past the
    /// width of the mask computation).
    pub fn as_pic_enable_mask(self) -> (r: u8)
        requires
            vector(self) < 0xe0,
        ensures
            r == pic_enable_mask(vector(self)),
    {
        let mut diff = self.as_usize() - InterruptIndex::LegacyTimer.as_usize();
        if diff > 7 {
            diff = diff - 8;
        }
        let mask: u32 = 0xff & !(1u32 << diff as u32);
        proof {
            lemma_pic_mask(diff as u32);
        }
        mask as u8
    }
}

proof fn lemma_pic_mask(d: u32)
    requires
        d < 10,
    ensures
        d < 8 ==> 0xffu32 & !(1u32 << d) == 0xff - pow2_line(d as int),
        d >= 8 ==> 0xffu32 & !(1u32 << d) == 0xff,
{
    assert({
        &&& 0xffu32 & !(1u32 << 0u32) == 0xfe
        &&& 0xffu32 & !(1u32 << 1u32) == 0xfd
        &&& 0xffu32 & !(1u32 << 2u32) == 0xfb
        &&& 0xffu32 & !(1u32 << 3u32) == 0xf7
        &&& 0xffu32 & !(1u32 << 4u32) == 0xef
        &&& 0xffu32 & !(1u32 << 5u32) == 0xdf
        &&& 0xffu32 & !(1u32 << 6u32) == 0xbf
        &&& 0xffu32 & !(1u32 << 7u32) == 0x7f
        &&& 0xffu32 & !(1u32 << 8u32) == 0xff
        &&& 0xffu32 & !(1u32 << 9u32) == 0xff
    }) by (bit_vector);
}

/// Whether the PIC whose vectors start at `offset` delivers `interrupt_id`.
pub open spec fn pic_handles(offset: u8, interrupt_id: u8) -> bool {
    offset <= interrupt_id < offset + 8
}

/// The vector offsets of the two chained PICs.
#[derive(Debug, Clone, Copy)]
pub struct PicOffsets {
    pub offset1: u8,
    pub offset2: u8,
}

/// Which PICs an end-of-interrupt must be sent to.
#[derive(Debug, Clone, Copy, PartialEq, Eq, Structural)]
pub struct EndOfInterrupt {
    pub secondary: bool,
    pub primary: bool,
}

impl PicOffsets {
    /// Are we in charge of the specified interrupt?  (Each PIC handles 8.)
    pub fn handles_interrupt(&self, interrupt_id: u8) -> (r: bool)
        requires
            self.offset1 + 8 <= u8::MAX,
            self.offset2 + 8 <= u8::MAX,
        ensures
            r == (pic_handles(self.offset1, interrupt_id) || pic_handles(
                self.offset2,
                interrupt_id,
            )),
    {
        (self.offset1 <= interrupt_id && interrupt_id < self.offset1 + 8) || (self.offset2
            <= interrupt_id && interrupt_id < self.offset2 + 8)
    }

    /// The PICs that need an end-of-interrupt for `interrupt_id`: both when the
    /// secondary PIC delivered it, since it is chained through the primary one,
    /// the primary alone when only it delivered it, none otherwise.
    pub fn end_of_interrupt(&self, interrupt_id: u8) -> (r: EndOfInterrupt)
        requires
            self.offset1 + 8 <= u8::MAX,
            self.offset2 + 8 <= u8::MAX,
        ensures
            r.primary == (pic_handles(self.offset1, interrupt_id) || pic_handles(
                self.offset2,
                interrupt_id,
            )),
            r.secondary == pic_handles(self.offset2, interrupt_id),
    {
        if self.handles_interrupt(interrupt_id) {
            let secondary = self.offset2 <= interrupt_id && interrupt_id < self.offset2 + 8;
            EndOfInterrupt { secondary, primary: true }
        } else {
            EndOfInterrupt { secondary: false, primary: false }
        }
    }
}

/// Whether the primary PIC's in-service register shows the chained line (IRQ 2)
/// in service, so that the secondary PIC's register decides.
pub fn cascade_in_service(isr1: u8) -> (r: bool)
    ensures
        r == ((isr1 / 4) % 2 == 1),
{
    assert((isr1 & 4 != 0) == ((isr1 / 4) % 2 == 1)) by (bit_vector);
    isr1 & 4 != 0
}

/// What to do about a possibly spurious interrupt.
#[derive(Debug, Clone, Copy, PartialEq, Eq, Structural)]
pub struct SpuriousCheck {
    /// The interrupt is spurious: no line is in service.
    pub spurious: bool,
    /// An end of interrupt goes to the primary PIC, which took the chained line
    /// for a real interrupt.
    pub eoi_primary: bool,
}

/// The decision on a possibly spurious interrupt, from the in-service registers
/// of the primary PIC (`isr1`) and the secondary one (`isr2`, read when the
/// chained line is in service): with the chained line in service the interrupt
/// is spurious when the secondary PIC has no line in service, and then the
/// primary PIC gets an end of interrupt; else it is spurious when the primary
/// PIC has no line in service.
pub fn is_spurious_isr(isr1: u8, isr2: u8) -> (r: SpuriousCheck)
    ensures
        (isr1 / 4) % 2 == 1 ==> r == (SpuriousCheck { spurious: isr2 == 0, eoi_primary: isr2 == 0 }),
        (isr1 / 4) % 2 != 1 ==> r == (SpuriousCheck { spurious: isr1 == 0, eoi_primary: false }),
{
    if cascade_in_service(isr1) {
        SpuriousCheck { spurious: isr2 == 0, eoi_primary: isr2 == 0 }
    } else {
        SpuriousCheck { spurious: isr1 == 0, eoi_primary: false }
    }
}

} // verus!

//! The local APIC: the values the kernel writes to its registers, the start-up
//! of the other cores, and the states a core goes through.
use vstd::prelude::*;
use crate::interrupts::{pic_enable_mask, vector, InterruptIndex};

verus! {

/// The physical address of the local APIC's registers.
pub const APIC_BASE: u64 = 0xfee0_0000;

/// The local APIC registers, by their offset into the register page.
#[derive(Debug, Clone, Copy, PartialEq, Eq, Structural)]
pub enum Register {
    ApicId,
    SpurInterVecReg,
    ApicVersion,
    EndOfInterrupt,
    ApicTimer,
    TimerCurrentCount,
    TimerInitialCount,
    DivideConfReg,
    TaskPrioReg,
    DestFormatReg,
    LogicalDestReg,
    InterCmdRegLow,
    InterCmdRegHigh,
}

/// The offset of a register into the register page.
pub open spec fn register_offset(r: Register) -> u64 {
    match r {
        Register::ApicId => 0x20,
        Register::SpurInterVecReg => 0xf0,
        Register::ApicVersion => 0x30,
        Register::EndOfInterrupt => 0xb0,
        Register::ApicTimer => 0x320,
        Register::TimerCurrentCount => 0x390,
        Register::TimerInitialCount => 0x380,
        Register::DivideConfReg => 0x3e0,
        Register::TaskPrioReg => 0x80,
        Register::DestFormatReg => 0xe0,
        Register::LogicalDestReg => 0xd0,
        Register::InterCmdRegLow => 0x300,
        Register::InterCmdRegHigh => 0x310,
    }
}

impl Register {
    /// The physical address of the register.
    pub fn address(self) -> (r: u64)
        ensures
            r == APIC_BASE + register_offset(self),
    {
        let offset: u64 = match self {
            Register::ApicId => 0x20,
            Register::SpurInterVecReg => 0xf0,
            Register::ApicVersion => 0x30,
            Register::EndOfInterrupt => 0xb0,
            Register::ApicTimer => 0x320,
            Register::TimerCurrentCount => 0x390,
            Register::TimerInitialCount => 0x380,
            Register::DivideConfReg => 0x3e0,
            Register::TaskPrioReg => 0x80,
            Register::DestFormatReg => 0xe0,
            Register::LogicalDestReg => 0xd0,
            Register::InterCmdRegLow => 0x300,
            Register::InterCmdRegHigh => 0x310,
        };
        APIC_BASE + offset
    }
}

/// Why a core cannot be started from a trampoline.
#[derive(Debug, Clone, Copy, PartialEq, Eq, Structural)]
pub enum TrampolineError {
    /// The trampoline lies outside the first MiB.
    OutsideFirstMb,
    /// The trampoline is not 4 KiB aligned.
    NotAligned,
    /// The start-up vector would be one the specification reserves.
    ReservedVector,
}

/// The start-up vector that makes a core run the trampoline at `trampoline`: its
/// page number, which must lie in the first MiB and not in `0xa0..=0xbf`.
pub fn startup_vector(trampoline: u32) -> (r: Result<u8, TrampolineError>)
    ensures
        trampoline >= 0x10_0000 ==> r == Err::<u8, TrampolineError>(TrampolineError::OutsideFirstMb),
        trampoline < 0x10_0000 && trampoline % 0x1000 != 0 ==> r == Err::<u8, TrampolineError>(
            TrampolineError::NotAligned,
        ),
        trampoline < 0x10_0000 && trampoline % 0x1000 == 0 && 0xa0 <= trampoline / 0x1000 <= 0xbf
            ==> r == Err::<u8, TrampolineError>(TrampolineError::ReservedVector),
        trampoline < 0x10_0000 && trampoline % 0x1000 == 0 && !(0xa0 <= trampoline / 0x1000 <= 0xbf)
            ==> r == Ok::<u8, TrampolineError>((trampoline / 0x1000) as u8),
{
    let t = trampoline as u64;
    if t >= 0x10_0000 {
        return Err(TrampolineError::OutsideFirstMb);
    }
    assert(t & 0xfff == t % 0x1000 && t >> 12u64 == t / 0x1000) by (bit_vector);
    if t & 0xfff != 0 {
        return Err(TrampolineError::NotAligned);
    }
    let to_vec = (t >> 12u64) as u8;
    if to_vec >= 0xa0 && to_vec <= 0xbf {
        return Err(TrampolineError::ReservedVector);
    }
    Ok(to_vec)
}

/// The two halves of an inter-processor interrupt command.
#[derive(Debug, Clone, Copy, PartialEq, Eq, Structural)]
pub struct IpiCommand {
    pub low: u32,
    pub high: u32,
}

/// The INIT command for the core with APIC id `apic_id`: vector zero, delivery
/// mode INIT, level de-assert, level-sensitive.
pub fn init_ipi(apic_id: u8) -> (r: IpiCommand)
    ensures
        r.low == 0x500,
        r.high == apic_id as u32 * 0x100_0000,
{
    assert((apic_id as u32) << 24u32 == apic_id as u32 * 0x100_0000 && 0b101u32 << 8u32 == 0x500)
        by (bit_vector);
    IpiCommand { low: 0b101u32 << 8u32, high: (apic_id as u32) << 24u32 }
}

/// The STARTUP command for the core with APIC id `apic_id` at vector `vec`:
/// delivery mode STARTUP, level assert.
pub fn startup_ipi(apic_id: u8, vec: u8) -> (r: IpiCommand)
    ensures
        r.low == vec as u32 + 0x600 + 0x4000,
        r.high == apic_id as u32 * 0x100_0000,
{
    assert((vec as u32) | (0b110u32 << 8u32) | (1u32 << 14u32) == vec as u32 + 0x600 + 0x4000) by (bit_vector)
        requires
            vec < 256,
    ;
    assert((apic_id as u32) << 24u32 == apic_id as u32 * 0x100_0000) by (bit_vector);
    IpiCommand { low: (vec as u32) | (0b110u32 << 8u32) | (1u32 << 14u32), high: (apic_id as u32) << 24u32 }
}

/// Whether an inter-processor interrupt is still being sent, by the low half of
/// the command register.
pub fn ipi_pending(low: u32) -> (r: bool)
    ensures
        r == ((low / 0x1000) % 2 == 1),
{
    assert((low >> 12u32) & 1 == (low / 0x1000) % 2) by (bit_vector);
    (low >> 12u32) & 1 == 1
}

/// One bit of a register, as a number.
pub open spec fn bit(b: bool) -> int {
    if b {
        1
    } else {
        0
    }
}

/// The APIC base register (an MSR): bits 0 to 7 reserved, bit 8 marks the
/// bootstrap core, bits 9 and 10 reserved, bit 11 enables the APIC, bits 12 to
/// 51 hold the page number of its registers, bits 52 to 63 reserved.
#[derive(Debug, Clone, Copy, PartialEq, Eq, Structural)]
pub struct ApicBaseReg {
    pub res0: u8,
    pub bootstrap_core: bool,
    pub res1: u8,
    pub apic_enable: bool,
    pub apic_base_addr: u64,
    pub res2: u16,
}

impl ApicBaseReg {
    /// Every field fits in its bits.
    pub open spec fn fits(self) -> bool {
        &&& self.res1 < 4
        &&& self.apic_base_addr < 0x100_0000_0000
        &&& self.res2 < 0x1000
    }

    /// The register value the fields make up.
    pub open spec fn raw_of(self) -> int {
        self.res0 + 0x100 * bit(self.bootstrap_core) + 0x200 * self.res1 + 0x800 * bit(self.apic_enable)
            + 0x1000 * self.apic_base_addr + 0x10_0000_0000_0000 * self.res2
    }

    /// The fields of the register value `raw`.
    pub open spec fn decode(raw: u64) -> ApicBaseReg {
        ApicBaseReg {
            res0: (raw % 0x100) as u8,
            bootstrap_core: (raw / 0x100) % 2 == 1,
            res1: ((raw / 0x200) % 4) as u8,
            apic_enable: (raw / 0x800) % 2 == 1,
            apic_base_addr: ((raw / 0x1000) % 0x100_0000_0000) as u64,
            res2: (raw / 0x10_0000_0000_0000) as u16,
        }
    }

    /// Splits the register value `raw` into its fields.
    pub fn from_raw(raw: u64) -> (r: ApicBaseReg)
        ensures
            r == ApicBaseReg::decode(raw),
            r.fits(),
    {
        ApicBaseReg {
            res0: (raw % 0x100) as u8,
            bootstrap_core: (raw / 0x100) % 2 == 1,
            res1: ((raw / 0x200) % 4) as u8,
            apic_enable: (raw / 0x800) % 2 == 1,
            apic_base_addr: (raw / 0x1000) % 0x100_0000_0000,
            res2: (raw / 0x10_0000_0000_0000) as u16,
        }
    }

    /// The register value of the fields.
    pub fn into_raw(self) -> (r: u64)
        requires
            self.fits(),
        ensures
            r == self.raw_of(),
    {
        let bsp: u64 = if self.bootstrap_core {
            1
        } else {
            0
        };
        let enable: u64 = if self.apic_enable {
            1
        } else {
            0
        };
        self.res0 as u64 + 0x100 * bsp + 0x200 * self.res1 as u64 + 0x800 * enable + 0x1000
            * self.apic_base_addr + 0x10_0000_0000_0000 * self.res2 as u64
    }
}

/// Splitting an APIC base register value into its fields and joining them again
/// gives back the value.
pub proof fn lemma_apic_base_round_trip(raw: u64)
    ensures
        ApicBaseReg::decode(raw).raw_of() == raw,
{
    assert(raw % 0x100 + 0x100 * ((raw / 0x100) % 2) + 0x200 * ((raw / 0x200) % 4) + 0x800 * ((raw / 0x800) % 2)
        + 0x1000 * ((raw / 0x1000) % 0x100_0000_0000) + 0x10_0000_0000_0000 * (raw / 0x10_0000_0000_0000) == raw)
        by (bit_vector);
}

/// The APIC base register with the APIC enabled at `APIC_BASE`: the enable bit
/// set and the base address field set to the page number of `APIC_BASE`; the
/// other fields are kept.
pub fn enable_apic_base(raw: u64) -> (r: u64)
    ensures
        r == (ApicBaseReg {
            apic_enable: true,
            apic_base_addr: (APIC_BASE / 0x1000) as u64,
            ..ApicBaseReg::decode(raw)
        }).raw_of(),
{
    let mut reg = ApicBaseReg::from_raw(raw);
    reg.apic_enable = true;
    reg.apic_base_addr = APIC_BASE / 0x1000;
    reg.into_raw()
}

/// Whether the APIC base register marks the bootstrap core.
pub fn is_bootstrap_core(raw: u64) -> (r: bool)
    ensures
        r == ApicBaseReg::decode(raw).bootstrap_core,
{
    ApicBaseReg::from_raw(raw).bootstrap_core
}

/// The APIC id in the APIC id register (its top byte).
pub fn apic_id_from_register(raw: u32) -> (r: u8)
    ensures
        r == raw / 0x100_0000,
{
    assert(raw >> 24u32 == raw / 0x100_0000) by (bit_vector);
    (raw >> 24u32) as u8
}

/// The APIC id of the running core from `cpuid` leaf 1 (the top byte of `ebx`).
pub fn local_apic_id(ebx: u32) -> (r: u8)
    ensures
        r == ebx / 0x100_0000,
{
    assert(ebx >> 24u32 == ebx / 0x100_0000) by (bit_vector);
    (ebx >> 24u32) as u8
}

/// Whether `cpuid` leaf 1 reports an APIC (bit 9 of `edx`).
pub fn apic_supported(edx: u32) -> (r: bool)
    ensures
        r == ((edx / 0x200) % 2 == 1),
{
    assert((edx & 0x200 != 0) == ((edx / 0x200) % 2 == 1)) by (bit_vector);
    edx & 0x200 != 0
}

/// The number of cores `cpuid` leaf `0x8000_0008` reports (`ecx` bits 0 to 7,
/// plus one).
pub fn num_cores(ecx: u32) -> (r: u32)
    ensures
        r == ecx % 256 + 1,
{
    assert(ecx & 0xff == ecx % 256) by (bit_vector);
    (ecx & 0xff) + 1
}

/// The spurious interrupt vector register: bits 0 to 7 the vector, bit 8
/// enables the APIC, bit 9 turns off focus processor checking, bits 10 to 31
/// reserved.
#[derive(Debug, Clone, Copy, PartialEq, Eq, Structural)]
pub struct SpuriousInterReg {
    pub vec: u8,
    pub apic_enable: bool,
    pub fcc: bool,
    pub res0: u32,
}

impl SpuriousInterReg {
    /// Every field fits in its bits.
    pub open spec fn fits(self) -> bool {
        self.res0 < 0x40_0000
    }

    /// The register value the fields make up.
    pub open spec fn raw_of(self) -> int {
        self.vec + 0x100 * bit(self.apic_enable) + 0x200 * bit(self.fcc) + 0x400 * self.res0
    }

    /// The register value of the fields.
    pub fn into_raw(self) -> (r: u32)
        requires
            self.fits(),
        ensures
            r == self.raw_of(),
    {
        let enable: u32 = if self.apic_enable {
            1
        } else {
            0
        };
        let fcc: u32 = if self.fcc {
            1
        } else {
            0
        };
        self.vec as u32 + 0x100 * enable + 0x200 * fcc + 0x400 * self.res0
    }
}

/// The spurious interrupt register value: the spurious vector, APIC enabled.
pub fn spurious_register() -> (r: u32)
    ensures
        r == (SpuriousInterReg {
            vec: vector(InterruptIndex::Spurious) as u8,
            apic_enable: true,
            fcc: false,
            res0: 0,
        }).raw_of(),
        r == vector(InterruptIndex::Spurious) + 0x100,
{
    let reg = SpuriousInterReg { vec: InterruptIndex::Spurious.as_u8(), apic_enable: true, fcc: false, res0: 0 };
    reg.into_raw()
}

/// The local vector table entry of the APIC timer: bits 0 to 7 the vector,
/// bit 12 the delivery status, bit 16 masks the timer, bit 17 makes it
/// periodic; the other bits reserved (bits 8 to 11, 13 to 15, 18 to 31).
#[derive(Debug, Clone, Copy, PartialEq, Eq, Structural)]
pub struct TimerLvtReg {
    pub vec: u8,
    pub res0: u8,
    pub delivery_status: bool,
    pub res1: u8,
    pub mask: bool,
    pub timer_mode: bool,
    pub res2: u32,
}

impl TimerLvtReg {
    /// Every field fits in its bits.
    pub open spec fn fits(self) -> bool {
        &&& self.res0 < 0x10
        &&& self.res1 < 8
        &&& self.res2 < 0x4000
    }

    /// The register value the fields make up.
    pub open spec fn raw_of(self) -> int {
        self.vec + 0x100 * self.res0 + 0x1000 * bit(self.delivery_status) + 0x2000 * self.res1 + 0x1_0000
            * bit(self.mask) + 0x2_0000 * bit(self.timer_mode) + 0x4_0000 * self.res2
    }

    /// The register value of the fields.
    pub fn into_raw(self) -> (r: u32)
        requires
            self.fits(),
        ensures
            r == self.raw_of(),
    {
        let status: u32 = if self.delivery_status {
            1
        } else {
            0
        };
        let mask: u32 = if self.mask {
            1
        } else {
            0
        };
        let mode: u32 = if self.timer_mode {
            1
        } else {
            0
        };
        self.vec as u32 + 0x100 * self.res0 as u32 + 0x1000 * status + 0x2000 * self.res1 as u32 + 0x1_0000
            * mask + 0x2_0000 * mode + 0x4_0000 * self.res2
    }
}

/// The timer register value: the timer vector, not masked, periodic.
pub fn timer_register() -> (r: u32)
    ensures
        r == (TimerLvtReg {
            vec: vector(InterruptIndex::Timer) as u8,
            res0: 0,
            delivery_status: false,
            res1: 0,
            mask: false,
            timer_mode: true,
            res2: 0,
        }).raw_of(),
        r == vector(InterruptIndex::Timer) + 0x2_0000,
{
    let reg = TimerLvtReg {
        vec: InterruptIndex::Timer.as_u8(),
        res0: 0,
        delivery_status: false,
        res1: 0,
        mask: false,
        timer_mode: true,
        res2: 0,
    };
    reg.into_raw()
}

/// The divide configuration register value: divide by two.
pub const DIVIDE_BY_TWO: u32 = 0;

/// The timer's initial count: one second at the measured rate.
pub const TIMER_INITIAL_COUNT: u32 = 423_845_000;

/// The fields of the APIC version register.
#[derive(Debug, Clone, Copy, PartialEq, Eq, Structural)]
pub struct ApicVersion {
    pub ver: u8,
    pub max_lvt_entries: u8,
    pub extended_apic_space: bool,
}

/// Reads the fields of the APIC version register.
pub fn apic_version(raw: u32) -> (r: ApicVersion)
    ensures
        r.ver == raw % 256,
        r.max_lvt_entries == (raw / 0x1_0000) % 256,
        r.extended_apic_space == (raw / 0x8000_0000 == 1),
{
    assert({
        &&& raw & 0xff == raw % 256
        &&& (raw >> 16u32) & 0xff == (raw / 0x1_0000) % 256
        &&& raw >> 31u32 == raw / 0x8000_0000
    }) by (bit_vector);
    ApicVersion {
        ver: (raw & 0xff) as u8,
        max_lvt_entries: ((raw >> 16u32) & 0xff) as u8,
        extended_apic_space: raw >> 31u32 == 1,
    }
}

/// The masks for the two chained PICs in virtual wire mode: the primary one lets
/// through the keyboard, the serial ports and the chained PIC; the secondary one
/// the network card.
pub fn chained_pic_masks() -> (r: (u8, u8))
    ensures
        r.0 == pic_enable_mask(vector(InterruptIndex::Keyboard)) & (pic_enable_mask(
            vector(InterruptIndex::COM1),
        ) & pic_enable_mask(vector(InterruptIndex::COM2))) & pic_enable_mask(vector(InterruptIndex::Pic2)),
        r.1 == pic_enable_mask(vector(InterruptIndex::Rtl8139)),
{
    let keyboard_enable = InterruptIndex::Keyboard.as_pic_enable_mask();
    let serial_enable = InterruptIndex::COM1.as_pic_enable_mask() & InterruptIndex::COM2.as_pic_enable_mask();
    let rtl8139 = InterruptIndex::Rtl8139.as_pic_enable_mask();
    let pic2 = InterruptIndex::Pic2.as_pic_enable_mask();
    (keyboard_enable & serial_enable & pic2, rtl8139)
}

/// Different states for APICs to be in
#[derive(Debug, Clone, Copy, PartialEq, Eq, Structural)]
pub enum ApicState {
    /// The core has checked in with the kernel and is actively running
    Online,
    /// The core has been launched by the kernel, but has not yet registered
    /// with the kernel
    Launched,
    /// The core is present but has not yet been launched
    Offline,
    /// This APIC ID does not exist
    NotPresent,
    /// This APIC ID has disabled interrupts and halted forever
    Halted,
}

/// The number of a state.
pub open spec fn apic_state_value(s: ApicState) -> u8 {
    match s {
        ApicState::Online => 1,
        ApicState::Launched => 2,
        ApicState::Offline => 3,
        ApicState::NotPresent => 4,
        ApicState::Halted => 5,
    }
}

/// The numbers of the states lie between one and five, and different states
/// have different numbers, so converting a number back gives the same state.
pub proof fn lemma_apic_state_numbers(a: ApicState, b: ApicState)
    ensures
        1 <= apic_state_value(a) <= 5,
        apic_state_value(a) == apic_state_value(b) ==> a == b,
{
}

impl ApicState {
    /// Convert a raw `u8`, one of the states' numbers, into an `ApicState`.
    pub fn from_u8(val: u8) -> (r: ApicState)
        requires
            1 <= val <= 5,
        ensures
            apic_state_value(r) == val,
    {
        if val == 1 {
            ApicState::Online
        } else if val == 2 {
            ApicState::Launched
        } else if val == 3 {
            ApicState::Offline
        } else if val == 4 {
            ApicState::NotPresent
        } else {
            ApicState::Halted
        }
    }

    /// The number of the state.
    pub fn as_u8(self) -> (r: u8)
        ensures
            r == apic_state_value(self),
    {
        match self {
            ApicState::Online => 1,
            ApicState::Launched => 2,
            ApicState::Offline => 3,
            ApicState::NotPresent => 4,
            ApicState::Halted => 5,
        }
    }
}

/// Hands out the numbers of a core's interrupt stacks, one to `max`.
pub struct StackIter {
    curr: u16,
    max: u16,
}

impl StackIter {
    pub closed spec fn current(&self) -> u16 {
        self.curr
    }

    pub closed spec fn limit(&self) -> u16 {
        self.max
    }

    pub fn new(max: u16) -> (r: StackIter)
        ensures
            r.current() == 0,
            r.limit() == max,
    {
        StackIter { curr: 0, max }
    }

    /// The next stack number, or `None` once `max` were handed out.
    pub fn next(&mut self) -> (r: Option<u16>)
        ensures
            final(self).limit() == old(self).limit(),
            old(self).current() < old(self).limit() ==> r == Some((old(self).current() + 1) as u16)
                && final(self).current() == old(self).current() + 1,
            old(self).current() >= old(self).limit() ==> r is None && final(self).current() == old(
                self,
            ).current(),
    {
        if self.curr < self.max {
            self.curr = self.curr + 1;
            return Some(self.curr);
        }
        None
    }
}

/// The exit codes the test kernel reports to QEMU.
#[derive(Debug, Clone, Copy, PartialEq, Eq, Structural)]
pub enum QemuExitCode {
    Success,
    Failed,
}

impl QemuExitCode {
    /// The value written to QEMU's exit port.
    pub fn as_u32(self) -> (r: u32)
        ensures
            self == QemuExitCode::Success ==> r == 0x10,
            self == QemuExitCode::Failed ==> r == 0x11,
    {
        match self {
            QemuExitCode::Success => 0x10,
            QemuExitCode::Failed => 0x11,
        }
    }
}

/// The `cpuid` leaves the kernel reads.
#[derive(Debug, Clone, Copy, PartialEq, Eq, Structural)]
pub enum CpuidIndex {
    TscInvariant,
}

impl CpuidIndex {
    /// The leaf number.
    pub fn as_u32(self) -> (r: u32)
        ensures
            r == 0x8000_0007,
    {
        0x8000_0007
    }
}

/// Whether the time stamp counter runs at a fixed rate (bit 8 of `edx` of the
/// `TscInvariant` leaf).
pub fn tsc_invariant(edx: u32) -> (r: bool)
    ensures
        r == ((edx / 0x100) % 2 == 1),
{
    assert((edx & 0x100 != 0) == ((edx / 0x100) % 2 == 1)) by (bit_vector);
    edx & 0x100 != 0
}

/// The state of every core, by APIC id, and the number of cores online.
pub struct CoreStates {
    states: Vec<ApicState>,
    online: usize,
}

impl CoreStates {
    /// The state of each core.
    pub closed spec fn states(&self) -> Seq<ApicState> {
        self.states@
    }

    /// The number of cores that reported ready.
    pub closed spec fn num_online(&self) -> usize {
        self.online
    }

    /// `n` cores, all offline.
    pub fn new(n: usize) -> (r: CoreStates)
        ensures
            r.states() == Seq::new(n as nat, |i: int| ApicState::Offline),
            r.num_online() == 0,
    {
        let mut states: Vec<ApicState> = Vec::new();
        while states.len() < n
            invariant
                states@.len() <= n,
                forall|i: int| 0 <= i < states@.len() ==> states@[i] == ApicState::Offline,
            decreases n - states.len(),
        {
            states.push(ApicState::Offline);
        }
        assert(states@ =~= Seq::new(n as nat, |i: int| ApicState::Offline));
        CoreStates { states, online: 0 }
    }

    /// Sets the state of core `id`.
    pub fn set_state(&mut self, id: usize, state: ApicState)
        requires
            id < old(self).states().len(),
        ensures
            final(self).states() == old(self).states().update(id as int, state),
            final(self).num_online() == old(self).num_online(),
    {
        self.states.set(id, state);
    }

    /// The state of core `id`.
    pub fn get_state(&self, id: usize) -> (r: ApicState)
        requires
            id < self.states().len(),
        ensures
            r == self.states()[id as int],
    {
        self.states[id]
    }

    /// The number of cores that reported ready.
    pub fn online(&self) -> (r: usize)
        ensures
            r == self.num_online(),
    {
        self.online
    }

    /// Core `id` reports ready: it is online and counted.
    pub fn set_core_ready(&mut self, id: usize)
        requires
            id < old(self).states().len(),
            old(self).num_online() < usize::MAX,
        ensures
            final(self).states() == old(self).states().update(id as int, ApicState::Online),
            final(self).num_online() == old(self).num_online() + 1,
    {
        self.set_state(id, ApicState::Online);
        self.online = self.online + 1;
    }
}

} // verus!

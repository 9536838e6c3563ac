use perf_kernel::apic::{
    apic_id_from_register, apic_supported, apic_version, chained_pic_masks, enable_apic_base,
    init_ipi, ipi_pending, is_bootstrap_core, local_apic_id, num_cores, spurious_register,
    startup_ipi, startup_vector, timer_register, tsc_invariant, ApicState, CoreStates, CpuidIndex,
    ApicBaseReg, QemuExitCode, Register, SpuriousInterReg, StackIter, TimerLvtReg, TrampolineError,
    APIC_BASE,
};
use perf_kernel::interrupts::{
    cascade_in_service, is_spurious_isr, InterruptIndex, PicOffsets, SpuriousCheck, PIC_1_OFFSET,
    PIC_2_OFFSET,
};
use perf_kernel::mapper::OffsetPageTable;
use perf_kernel::media::{extended_sse, legacy_sse, media_setup, MediaError, MediaFeatures};
use perf_kernel::page::VirtAddr;
use perf_kernel::pagetable::{PageTable, PageTableEntry};

#[test]
fn register_addresses() {
    assert_eq!(Register::ApicId.address(), APIC_BASE + 0x20);
    assert_eq!(Register::EndOfInterrupt.address(), 0xfee0_00b0);
    assert_eq!(Register::InterCmdRegHigh.address(), 0xfee0_0310);
    assert_eq!(Register::TimerInitialCount.address(), 0xfee0_0380);
}

#[test]
fn startup_vectors() {
    assert_eq!(startup_vector(0x8000), Ok(8));
    assert_eq!(startup_vector(0x10_0000), Err(TrampolineError::OutsideFirstMb));
    assert_eq!(startup_vector(0x8010), Err(TrampolineError::NotAligned));
    assert_eq!(startup_vector(0xa0000), Err(TrampolineError::ReservedVector));
    assert_eq!(startup_vector(0xc0000), Ok(0xc0));
}

#[test]
fn inter_processor_interrupts() {
    let i = init_ipi(3);
    assert_eq!(i.low, 0x500);
    assert_eq!(i.high, 0x0300_0000);
    let s = startup_ipi(3, 8);
    assert_eq!(s.low, 0x4608);
    assert_eq!(s.high, 0x0300_0000);
    assert!(ipi_pending(0x1000));
    assert!(!ipi_pending(0x0fff));
}

#[test]
fn apic_register_fields() {
    assert_eq!(enable_apic_base(0xfee0_0100), 0xfee0_0900);
    assert!(is_bootstrap_core(0xfee0_0900));
    assert!(!is_bootstrap_core(0xfee0_0800));
    assert_eq!(apic_id_from_register(0x0500_0000), 5);
    assert_eq!(local_apic_id(0x0701_0800), 7);
    assert!(apic_supported(0x200));
    assert!(!apic_supported(0x100));
    assert_eq!(num_cores(0x8003), 4);
    assert_eq!(spurious_register(), 0x1ff);
    assert_eq!(timer_register(), 0x2_00e0);
    let v = apic_version(0x8005_0014);
    assert_eq!(v.ver, 0x14);
    assert_eq!(v.max_lvt_entries, 5);
    assert!(v.extended_apic_space);
    assert!(tsc_invariant(0x100));
    assert!(!tsc_invariant(0xff));
    assert_eq!(CpuidIndex::TscInvariant.as_u32(), 0x8000_0007);
}

#[test]
fn pic_masks() {
    assert_eq!(InterruptIndex::Keyboard.as_pic_enable_mask(), 0xfd);
    assert_eq!(InterruptIndex::Rtl8139.as_pic_enable_mask(), 0xf7);
    assert_eq!(chained_pic_masks(), (0xfd & 0xef & 0xf7 & 0xfb, 0xf7));
    assert_eq!(InterruptIndex::Timer.as_u8(), 0xe0);
    assert_eq!(InterruptIndex::Spurious.as_usize(), 0xff);
}

#[test]
fn pic_end_of_interrupt() {
    let p = PicOffsets { offset1: PIC_1_OFFSET, offset2: PIC_2_OFFSET };
    assert!(p.handles_interrupt(33));
    assert!(!p.handles_interrupt(48));
    let e = p.end_of_interrupt(43);
    assert!(e.primary && e.secondary);
    let e = p.end_of_interrupt(33);
    assert!(e.primary && !e.secondary);
    let e = p.end_of_interrupt(0xe0);
    assert!(!e.primary && !e.secondary);
    assert_eq!(is_spurious_isr(0, 0), SpuriousCheck { spurious: true, eoi_primary: false });
    assert_eq!(is_spurious_isr(1, 0), SpuriousCheck { spurious: false, eoi_primary: false });
    assert!(cascade_in_service(4));
    assert!(!cascade_in_service(3));
    assert_eq!(is_spurious_isr(4, 0), SpuriousCheck { spurious: true, eoi_primary: true });
    assert_eq!(is_spurious_isr(4, 2), SpuriousCheck { spurious: false, eoi_primary: false });
}

#[test]
fn apic_states_round_trip() {
    for v in 1..=5u8 {
        assert_eq!(ApicState::from_u8(v).as_u8(), v);
    }
    assert_eq!(ApicState::from_u8(4), ApicState::NotPresent);
    let mut c = CoreStates::new(4);
    assert_eq!(c.get_state(3), ApicState::Offline);
    c.set_state(2, ApicState::Launched);
    c.set_core_ready(1);
    assert_eq!(c.get_state(1), ApicState::Online);
    assert_eq!(c.get_state(2), ApicState::Launched);
    assert_eq!(c.online(), 1);
}

#[test]
fn stack_numbers() {
    let mut it = StackIter::new(2);
    assert_eq!(it.next(), Some(1));
    assert_eq!(it.next(), Some(2));
    assert_eq!(it.next(), None);
    assert_eq!(QemuExitCode::Success.as_u32(), 0x10);
    assert_eq!(QemuExitCode::Failed.as_u32(), 0x11);
}

#[test]
fn media_extensions() {
    let l = legacy_sse(0x200, 1, 0x8000_0015, 0x20).unwrap();
    assert_eq!(l.cr4, 0x220);
    assert_eq!(l.cr0, 0x8000_0013);
    assert_eq!(legacy_sse(0, 1, 0, 0), Err(MediaError::NoSse3));
    assert_eq!(legacy_sse(0x200, 0, 0, 0), Err(MediaError::NoFpu));
    let e = extended_sse(0x400_0000, 0, 7, 0x340, 1).unwrap();
    assert_eq!(e.cr4, 0x4_0000);
    assert_eq!(e.xcr0, 7);
    assert_eq!(e.save_area_size, 0x340);
    assert!(e.xsaveopt_missing);
    assert_eq!(extended_sse(0, 1, 7, 0, 1), Err(MediaError::NoXsave));
    assert_eq!(extended_sse(0x400_0000, 1, 3, 0, 1), Err(MediaError::NoExtendedSse));
    let all = MediaFeatures { fpu: true, sse: true, xsave: true, xgetbv: true, xcr0_x87: true, xcr0_sse: true, xcr0_avx: true, avx: true };
    let s = media_setup(all, 0x8000_0015, 0x20, 1);
    assert_eq!(s.legacy, Some((0x620, 0x8000_0013)));
    assert_eq!(s.extended, Some((0x4_0620, 7)));
    let mut no_avx = all;
    no_avx.avx = false;
    let s = media_setup(no_avx, 0, 0, 1);
    assert_eq!(s.legacy, Some((0x600, 2)));
    assert_eq!(s.extended, None);
    let mut no_fpu = all;
    no_fpu.fpu = false;
    let s = media_setup(no_fpu, 0, 0, 1);
    assert_eq!(s.legacy, None);
    assert_eq!(s.extended, None);
}

#[test]
fn offset_page_table() {
    let mut m = OffsetPageTable::new(PageTable::new(), VirtAddr::new(0x1000_0000));
    assert_eq!(m.frame_to_pointer(0x5000), VirtAddr::new(0x1000_5000));
    let mut e = PageTableEntry::new();
    e.set_addr(0x3000, perf_kernel::pagetable::PageTableFlags::present());
    m.level_2_table().set(4, e);
    assert_eq!(m.level_2_table().get(4), e);
}

#[test]
fn apic_register_layouts() {
    let raw: u64 = 0x0010_0000_fee0_0d05;
    let reg = ApicBaseReg::from_raw(raw);
    assert_eq!(reg.res0, 5);
    assert!(reg.bootstrap_core);
    assert_eq!(reg.res1, 2);
    assert!(reg.apic_enable);
    assert_eq!(reg.apic_base_addr, 0xfee00);
    assert_eq!(reg.res2, 1);
    assert_eq!(reg.into_raw(), raw);
    // Enabling keeps the reserved bits and the bootstrap flag.
    assert_eq!(enable_apic_base(0x0010_0000_0000_0105), 0x0010_0000_fee0_0905);
    let spurious = SpuriousInterReg { vec: 0xff, apic_enable: true, fcc: true, res0: 1 };
    assert_eq!(spurious.into_raw(), 0x7ff);
    let timer = TimerLvtReg {
        vec: 0x20,
        res0: 0,
        delivery_status: true,
        res1: 0,
        mask: true,
        timer_mode: false,
        res2: 0,
    };
    assert_eq!(timer.into_raw(), 0x1_1020);
}

use perf_kernel::corestate::{
    check_corestate, compared_register_at, CoreRegister, CoreState, FixedMtrrLine, FixedRange,
    MtrrError, NUM_COMPARED, NUM_FIXED_MTRRS,
};

fn fixed(r: usize, k: usize, memory_type: u8) -> FixedRange {
    let start = ((r * 8 + k) * 0x1000) as u64;
    FixedRange { start, end: start + 0xfff, memory_type }
}

fn state() -> CoreState {
    let mut mtrrfix = [[FixedRange { start: 0, end: 0, memory_type: 0 }; 8]; NUM_FIXED_MTRRS];
    for (r, reg) in mtrrfix.iter_mut().enumerate() {
        for (k, range) in reg.iter_mut().enumerate() {
            *range = fixed(r, k, 6);
        }
    }
    CoreState {
        xcr0: 7,
        cr0: 0x8000_0011,
        cr2: 0,
        cr3: (0x1000, 0),
        cr4: 0x20,
        cr8: 0,
        gdtr: 0,
        idtr: 0,
        efer: 0xd01,
        syscfg: 0,
        star: (0, 8, 0, 0),
        lstar: 0,
        cstar: 0,
        sfmask: 0,
        fsbase: 0,
        gsbase: 0,
        kernel_gsbase: 0,
        mtrrcap: 0x508,
        mtrrdeftype: 0xc06,
        mtrrphysbase: [0; 8],
        mtrrphysmask: [0; 8],
        mtrrfix,
    }
}

#[test]
fn comparison_order() {
    assert_eq!(compared_register_at(0), CoreRegister::MtrrPhysMask(0));
    assert_eq!(compared_register_at(15), CoreRegister::MtrrPhysBase(7));
    assert_eq!(compared_register_at(16), CoreRegister::MtrrCap);
    assert_eq!(compared_register_at(17), CoreRegister::MtrrDefType);
    assert_eq!(compared_register_at(18), CoreRegister::MtrrFix(0, 0));
    assert_eq!(compared_register_at(90), CoreRegister::MtrrFix(10, 0));
    assert_eq!(compared_register_at(98), CoreRegister::Xcr0);
    assert_eq!(compared_register_at(NUM_COMPARED - 1), CoreRegister::KernelGsBase);
}

#[test]
fn equal_cores_pass() {
    let a = state();
    let b = state();
    assert!(a.same_as(&b));
    assert_eq!(check_corestate(&a, &b), Ok(()));
    assert!(a.diff_print(&b).is_empty());
}

#[test]
fn differing_registers_listed_in_order() {
    let bsp = state();
    let mut other = state();
    other.cr4 = 0x620;
    other.mtrrphysbase[2] = 6;
    other.mtrrfix[10][3].memory_type = 0;
    other.star.3 = 0x10;
    assert!(!bsp.same_as(&other));
    let expected = vec![
        CoreRegister::MtrrPhysBase(2),
        CoreRegister::MtrrFix(10, 3),
        CoreRegister::Cr4,
        CoreRegister::Star,
    ];
    assert_eq!(bsp.diff_print(&other), expected);
    assert_eq!(check_corestate(&bsp, &other), Err(expected));
    assert!(bsp.register_differs(&other, CoreRegister::Cr4));
    assert!(!bsp.register_differs(&other, CoreRegister::Cr0));
}

#[test]
fn unlisted_fixed_register_is_not_compared() {
    let bsp = state();
    let mut other = state();
    other.mtrrfix[9][0].memory_type = 0;
    assert!(!bsp.same_as(&other));
    assert!(bsp.diff_print(&other).is_empty());
}

#[test]
fn variable_range_bounds() {
    let mut s = state();
    s.mtrrphysbase[1] = 0x1000_0006;
    s.mtrrphysmask[1] = 0xf_f000_0800;
    let r = s.variable_range(1);
    assert_eq!(r.index, 1);
    assert_eq!(r.start, 0x1000_0000);
    assert_eq!(r.end, 0x1fff_ffff);
    assert_eq!(r.memory_type, 6);
}

#[test]
fn variable_mtrr_checks() {
    let s = state();
    assert_eq!(s.print_variable_mtrrs(), Ok(vec![]));
    let mut t = state();
    t.mtrrdeftype = 0x406;
    assert_eq!(t.print_variable_mtrrs(), Err(MtrrError::NotEnabled));
    t.mtrrdeftype = 0x802;
    assert_eq!(t.print_variable_mtrrs(), Err(MtrrError::InvalidType(2)));
    t.mtrrdeftype = 0x801;
    assert_eq!(t.print_variable_mtrrs(), Err(MtrrError::DefaultNotWriteBack(1)));
    t.mtrrdeftype = 0x806;
    t.mtrrphysbase[3] = 0x2000_0003;
    assert_eq!(t.print_variable_mtrrs(), Err(MtrrError::InvalidType(3)));
}

#[test]
fn fixed_mtrr_listing() {
    let mut s = state();
    for k in 4..8 {
        s.mtrrfix[0][k].memory_type = 0;
    }
    let lines = s.print_fixed_mtrrs().unwrap();
    assert_eq!(
        lines,
        vec![
            FixedMtrrLine::Change { end: 0x3fff, memory_type: 6, next_start: 0x4000 },
            FixedMtrrLine::Change { end: 0x8fff, memory_type: 6, next_start: 0x9000 },
            FixedMtrrLine::Last { end: 0x57fff, memory_type: 6 },
        ]
    );
    s.mtrrdeftype = 0x806;
    assert_eq!(s.print_fixed_mtrrs(), None);
}

#[test]
fn difference_is_empty_for_equal_cores_and_symmetric() {
    let a = state();
    assert!(a.diff_print(&state()).is_empty());
    let mut b = state();
    b.cr4 = 0x620;
    b.mtrrphysbase[3] = 0xc000_0006;
    b.mtrrfix[10][2].memory_type = 0;
    let ab = a.diff_print(&b);
    let ba = b.diff_print(&a);
    assert_eq!(ab, ba);
    assert_eq!(
        ab,
        vec![CoreRegister::MtrrPhysBase(3), CoreRegister::MtrrFix(10, 2), CoreRegister::Cr4]
    );
}

#[test]
fn variable_range_end_rounds_the_low_bit_down() {
    let mut s = state();
    s.mtrrphysbase[2] = 0x8000_0000;
    s.mtrrphysmask[2] = 0xf_ffff_f000;
    let r = s.variable_range(2);
    assert_eq!(r.start, 0x8000_0000);
    assert_eq!(r.end, 0x8fff_ffff);
}

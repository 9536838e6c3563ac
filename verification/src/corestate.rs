//! The control and memory-typing registers of a core, as the kernel records
//! them on the bootstrap core and compares them on the others, and the checks it
//! makes on the memory type ranges.
use vstd::prelude::*;

verus! {

/// One sub-range of a fixed-range memory type register: `start..end` and its
/// memory type.
#[derive(Debug, Clone, Copy, PartialEq, Eq, Structural)]
pub struct FixedRange {
    pub start: u64,
    pub end: u64,
    pub memory_type: u8,
}

/// The number of fixed-range memory type registers.
pub const NUM_FIXED_MTRRS: usize = 11;

/// The registers of a core that must agree across cores.  The fixed-range
/// registers are, in order: 64K_00000, 16K_80000, 16K_A0000, 4K_C0000, 4K_C8000,
/// 4K_D0000, 4K_D8000, 4K_E0000, 4K_E8000, 4K_F0000, 4K_F8000.
#[derive(Debug, Clone, Copy)]
pub struct CoreState {
    pub xcr0: u64,
    pub cr0: u64,
    pub cr2: u64,
    pub cr3: (u64, u64),
    pub cr4: u64,
    pub cr8: u64,
    pub gdtr: u64,
    pub idtr: u64,
    pub efer: u64,
    pub syscfg: u64,
    pub star: (u16, u16, u16, u16),
    pub lstar: u64,
    pub cstar: u64,
    pub sfmask: u64,
    pub fsbase: u64,
    pub gsbase: u64,
    pub kernel_gsbase: u64,
    pub mtrrcap: u64,
    pub mtrrdeftype: u64,
    pub mtrrphysbase: [u64; 8],
    pub mtrrphysmask: [u64; 8],
    pub mtrrfix: [[FixedRange; 8]; NUM_FIXED_MTRRS],
}

/// A register (or, for the fixed-range registers, a sub-range) that the
/// comparison of two cores reports.
#[derive(Debug, Clone, Copy, PartialEq, Eq, Structural)]
pub enum CoreRegister {
    MtrrPhysMask(u8),
    MtrrPhysBase(u8),
    MtrrCap,
    MtrrDefType,
    /// Sub-range `1` of fixed-range register `0`.
    MtrrFix(u8, u8),
    Xcr0,
    Cr0,
    Cr2,
    Cr3,
    Cr4,
    Cr8,
    Idtr,
    Gdtr,
    Efer,
    Syscfg,
    Star,
    Lstar,
    Cstar,
    Sfmask,
    FsBase,
    GsBase,
    KernelGsBase,
}

/// The number of registers and sub-ranges the comparison visits.
pub const NUM_COMPARED: usize = 115;

/// The fixed-range register the comparison visits as its `j`-th: all but
/// 4K_F0000.
pub open spec fn compared_fix_reg(j: int) -> int {
    if j < 9 {
        j
    } else {
        10
    }
}

/// The `i`-th register the comparison visits: the variable-range masks, then
/// bases, the capability and default type registers, the sub-ranges of the
/// fixed-range registers, then the control registers.
pub open spec fn compared_register(i: int) -> CoreRegister {
    if i < 8 {
        CoreRegister::MtrrPhysMask(i as u8)
    } else if i < 16 {
        CoreRegister::MtrrPhysBase((i - 8) as u8)
    } else if i == 16 {
        CoreRegister::MtrrCap
    } else if i == 17 {
        CoreRegister::MtrrDefType
    } else if i < 98 {
        CoreRegister::MtrrFix(compared_fix_reg((i - 18) / 8) as u8, ((i - 18) % 8) as u8)
    } else {
        let k = i - 98;
        if k == 0 {
            CoreRegister::Xcr0
        } else if k == 1 {
            CoreRegister::Cr0
        } else if k == 2 {
            CoreRegister::Cr2
        } else if k == 3 {
            CoreRegister::Cr3
        } else if k == 4 {
            CoreRegister::Cr4
        } else if k == 5 {
            CoreRegister::Cr8
        } else if k == 6 {
            CoreRegister::Idtr
        } else if k == 7 {
            CoreRegister::Gdtr
        } else if k == 8 {
            CoreRegister::Efer
        } else if k == 9 {
            CoreRegister::Syscfg
        } else if k == 10 {
            CoreRegister::Star
        } else if k == 11 {
            CoreRegister::Lstar
        } else if k == 12 {
            CoreRegister::Cstar
        } else if k == 13 {
            CoreRegister::Sfmask
        } else if k == 14 {
            CoreRegister::FsBase
        } else if k == 15 {
            CoreRegister::GsBase
        } else {
            CoreRegister::KernelGsBase
        }
    }
}

/// The registers in the order the comparison visits them.
pub open spec fn compared_registers() -> Seq<CoreRegister> {
    Seq::new(NUM_COMPARED as nat, |i: int| compared_register(i))
}

/// Whether register `r` holds different values on the two cores.
pub open spec fn differs(a: CoreState, b: CoreState, r: CoreRegister) -> bool {
    match r {
        CoreRegister::MtrrPhysMask(k) => a.mtrrphysmask@[k as int] != b.mtrrphysmask@[k as int],
        CoreRegister::MtrrPhysBase(k) => a.mtrrphysbase@[k as int] != b.mtrrphysbase@[k as int],
        CoreRegister::MtrrCap => a.mtrrcap != b.mtrrcap,
        CoreRegister::MtrrDefType => a.mtrrdeftype != b.mtrrdeftype,
        CoreRegister::MtrrFix(j, k) => a.mtrrfix@[j as int]@[k as int] != b.mtrrfix@[j as int]@[k as int],
        CoreRegister::Xcr0 => a.xcr0 != b.xcr0,
        CoreRegister::Cr0 => a.cr0 != b.cr0,
        CoreRegister::Cr2 => a.cr2 != b.cr2,
        CoreRegister::Cr3 => a.cr3 != b.cr3,
        CoreRegister::Cr4 => a.cr4 != b.cr4,
        CoreRegister::Cr8 => a.cr8 != b.cr8,
        CoreRegister::Idtr => a.idtr != b.idtr,
        CoreRegister::Gdtr => a.gdtr != b.gdtr,
        CoreRegister::Efer => a.efer != b.efer,
        CoreRegister::Syscfg => a.syscfg != b.syscfg,
        CoreRegister::Star => a.star != b.star,
        CoreRegister::Lstar => a.lstar != b.lstar,
        CoreRegister::Cstar => a.cstar != b.cstar,
        CoreRegister::Sfmask => a.sfmask != b.sfmask,
        CoreRegister::FsBase => a.fsbase != b.fsbase,
        CoreRegister::GsBase => a.gsbase != b.gsbase,
        CoreRegister::KernelGsBase => a.kernel_gsbase != b.kernel_gsbase,
    }
}

/// Returns the `i`-th register the comparison visits.
pub fn compared_register_at(i: usize) -> (r: CoreRegister)
    requires
        i < NUM_COMPARED,
    ensures
        r == compared_register(i as int),
{
    if i < 8 {
        CoreRegister::MtrrPhysMask(i as u8)
    } else if i < 16 {
        CoreRegister::MtrrPhysBase((i - 8) as u8)
    } else if i == 16 {
        CoreRegister::MtrrCap
    } else if i == 17 {
        CoreRegister::MtrrDefType
    } else if i < 98 {
        let j = (i - 18) / 8;
        let reg: u8 = if j < 9 {
            j as u8
        } else {
            10
        };
        CoreRegister::MtrrFix(reg, ((i - 18) % 8) as u8)
    } else {
        let k = i - 98;
        if k == 0 {
            CoreRegister::Xcr0
        } else if k == 1 {
            CoreRegister::Cr0
        } else if k == 2 {
            CoreRegister::Cr2
        } else if k == 3 {
            CoreRegister::Cr3
        } else if k == 4 {
            CoreRegister::Cr4
        } else if k == 5 {
            CoreRegister::Cr8
        } else if k == 6 {
            CoreRegister::Idtr
        } else if k == 7 {
            CoreRegister::Gdtr
        } else if k == 8 {
            CoreRegister::Efer
        } else if k == 9 {
            CoreRegister::Syscfg
        } else if k == 10 {
            CoreRegister::Star
        } else if k == 11 {
            CoreRegister::Lstar
        } else if k == 12 {
            CoreRegister::Cstar
        } else if k == 13 {
            CoreRegister::Sfmask
        } else if k == 14 {
            CoreRegister::FsBase
        } else if k == 15 {
            CoreRegister::GsBase
        } else {
            CoreRegister::KernelGsBase
        }
    }
}

fn fixed_range_eq(a: &FixedRange, b: &FixedRange) -> (r: bool)
    ensures
        r == (*a == *b),
{
    a.start == b.start && a.end == b.end && a.memory_type == b.memory_type
}

impl CoreState {
    /// Whether register `r`, one the comparison visits, differs from `other`.
    pub fn register_differs(&self, other: &CoreState, r: CoreRegister) -> (d: bool)
        requires
            exists|i: int| 0 <= i < NUM_COMPARED && compared_register(i) == r,
        ensures
            d == differs(*self, *other, r),
    {
        match r {
            CoreRegister::MtrrPhysMask(k) => self.mtrrphysmask[k as usize] != other.mtrrphysmask[k as usize],
            CoreRegister::MtrrPhysBase(k) => self.mtrrphysbase[k as usize] != other.mtrrphysbase[k as usize],
            CoreRegister::MtrrCap => self.mtrrcap != other.mtrrcap,
            CoreRegister::MtrrDefType => self.mtrrdeftype != other.mtrrdeftype,
            CoreRegister::MtrrFix(j, k) => !fixed_range_eq(
                &self.mtrrfix[j as usize][k as usize],
                &other.mtrrfix[j as usize][k as usize],
            ),
            CoreRegister::Xcr0 => self.xcr0 != other.xcr0,
            CoreRegister::Cr0 => self.cr0 != other.cr0,
            CoreRegister::Cr2 => self.cr2 != other.cr2,
            CoreRegister::Cr3 => self.cr3.0 != other.cr3.0 || self.cr3.1 != other.cr3.1,
            CoreRegister::Cr4 => self.cr4 != other.cr4,
            CoreRegister::Cr8 => self.cr8 != other.cr8,
            CoreRegister::Idtr => self.idtr != other.idtr,
            CoreRegister::Gdtr => self.gdtr != other.gdtr,
            CoreRegister::Efer => self.efer != other.efer,
            CoreRegister::Syscfg => self.syscfg != other.syscfg,
            CoreRegister::Star => self.star.0 != other.star.0 || self.star.1 != other.star.1
                || self.star.2 != other.star.2 || self.star.3 != other.star.3,
            CoreRegister::Lstar => self.lstar != other.lstar,
            CoreRegister::Cstar => self.cstar != other.cstar,
            CoreRegister::Sfmask => self.sfmask != other.sfmask,
            CoreRegister::FsBase => self.fsbase != other.fsbase,
            CoreRegister::GsBase => self.gsbase != other.gsbase,
            CoreRegister::KernelGsBase => self.kernel_gsbase != other.kernel_gsbase,
        }
    }

    /// The registers that hold different values on the two cores, in the order
    /// the comparison visits them (see `compared_register`).
    pub fn diff_print(&self, s: &CoreState) -> (r: Vec<CoreRegister>)
        ensures
            r@ == compared_registers().filter(|x: CoreRegister| differs(*self, *s, x)),
    {
        let ghost pred = |x: CoreRegister| differs(*self, *s, x);
        let mut r: Vec<CoreRegister> = Vec::new();
        let mut i: usize = 0;
        while i < NUM_COMPARED
            invariant
                i <= NUM_COMPARED,
                pred == (|x: CoreRegister| differs(*self, *s, x)),
                r@ == compared_registers().take(i as int).filter(pred),
            decreases NUM_COMPARED - i,
        {
            let reg = compared_register_at(i);
            proof {
                assert(compared_registers().take(i + 1) =~= compared_registers().take(i as int).push(reg));
                compared_registers().take(i as int).lemma_filter_push(reg, pred);
            }
            if self.register_differs(s, reg) {
                r.push(reg);
            }
            i = i + 1;
        }
        assert(compared_registers().take(NUM_COMPARED as int) =~= compared_registers());
        r
    }
}

/// Whether two cores agree in every register.
pub open spec fn same_state(a: CoreState, b: CoreState) -> bool {
    &&& a.xcr0 == b.xcr0
    &&& a.cr0 == b.cr0
    &&& a.cr2 == b.cr2
    &&& a.cr3 == b.cr3
    &&& a.cr4 == b.cr4
    &&& a.cr8 == b.cr8
    &&& a.gdtr == b.gdtr
    &&& a.idtr == b.idtr
    &&& a.efer == b.efer
    &&& a.syscfg == b.syscfg
    &&& a.star == b.star
    &&& a.lstar == b.lstar
    &&& a.cstar == b.cstar
    &&& a.sfmask == b.sfmask
    &&& a.fsbase == b.fsbase
    &&& a.gsbase == b.gsbase
    &&& a.kernel_gsbase == b.kernel_gsbase
    &&& a.mtrrcap == b.mtrrcap
    &&& a.mtrrdeftype == b.mtrrdeftype
    &&& a.mtrrphysbase@ == b.mtrrphysbase@
    &&& a.mtrrphysmask@ == b.mtrrphysmask@
    &&& forall|j: int| 0 <= j < NUM_FIXED_MTRRS ==> #[trigger] a.mtrrfix@[j]@ == b.mtrrfix@[j]@
}

fn u64_arrays_eq(a: &[u64; 8], b: &[u64; 8]) -> (r: bool)
    ensures
        r == (a@ == b@),
{
    let mut i: usize = 0;
    while i < 8
        invariant
            i <= 8,
            a@.len() == 8,
            b@.len() == 8,
            forall|j: int| 0 <= j < i ==> a@[j] == b@[j],
        decreases 8 - i,
    {
        if a[i] != b[i] {
            return false;
        }
        i = i + 1;
    }
    assert(a@ =~= b@);
    true
}

fn fixed_reg_eq(a: &[FixedRange; 8], b: &[FixedRange; 8]) -> (r: bool)
    ensures
        r == (a@ == b@),
{
    let mut i: usize = 0;
    while i < 8
        invariant
            i <= 8,
            a@.len() == 8,
            b@.len() == 8,
            forall|j: int| 0 <= j < i ==> a@[j] == b@[j],
        decreases 8 - i,
    {
        if !fixed_range_eq(&a[i], &b[i]) {
            return false;
        }
        i = i + 1;
    }
    assert(a@ =~= b@);
    true
}

impl CoreState {
    /// Whether the two cores agree in every register.
    pub fn same_as(&self, other: &CoreState) -> (r: bool)
        ensures
            r == same_state(*self, *other),
    {
        if !(self.xcr0 == other.xcr0 && self.cr0 == other.cr0 && self.cr2 == other.cr2
            && self.cr3.0 == other.cr3.0 && self.cr3.1 == other.cr3.1 && self.cr4 == other.cr4
            && self.cr8 == other.cr8 && self.gdtr == other.gdtr && self.idtr == other.idtr
            && self.efer == other.efer && self.syscfg == other.syscfg && self.star.0
            == other.star.0 && self.star.1 == other.star.1 && self.star.2 == other.star.2
            && self.star.3 == other.star.3 && self.lstar == other.lstar && self.cstar
            == other.cstar && self.sfmask == other.sfmask && self.fsbase == other.fsbase
            && self.gsbase == other.gsbase && self.kernel_gsbase == other.kernel_gsbase
            && self.mtrrcap == other.mtrrcap && self.mtrrdeftype == other.mtrrdeftype) {
            return false;
        }
        if !u64_arrays_eq(&self.mtrrphysbase, &other.mtrrphysbase) {
            return false;
        }
        if !u64_arrays_eq(&self.mtrrphysmask, &other.mtrrphysmask) {
            return false;
        }
        let mut j: usize = 0;
        while j < NUM_FIXED_MTRRS
            invariant
                j <= NUM_FIXED_MTRRS,
                self.mtrrfix@.len() == NUM_FIXED_MTRRS,
                other.mtrrfix@.len() == NUM_FIXED_MTRRS,
                forall|k: int| 0 <= k < j ==> #[trigger] self.mtrrfix@[k]@ == other.mtrrfix@[k]@,
            decreases NUM_FIXED_MTRRS - j,
        {
            if !fixed_reg_eq(&self.mtrrfix[j], &other.mtrrfix[j]) {
                return false;
            }
            j = j + 1;
        }
        true
    }
}

/// Checks that a core's registers agree with the bootstrap core's; when they do
/// not, the registers that differ come back (in the order of `diff_print`).
pub fn check_corestate(bsp: &CoreState, curr: &CoreState) -> (r: Result<(), Vec<CoreRegister>>)
    ensures
        same_state(*curr, *bsp) ==> r is Ok,
        !same_state(*curr, *bsp) ==> (r matches Err(d) && d@ == compared_registers().filter(
            |x: CoreRegister| differs(*bsp, *curr, x),
        )),
{
    if !curr.same_as(bsp) {
        return Err(bsp.diff_print(curr));
    }
    Ok(())
}

/// Two cores that agree in every register differ in none that the comparison
/// visits: the list of differing registers is empty.
pub proof fn lemma_same_state_no_difference(a: CoreState, b: CoreState)
    requires
        same_state(a, b),
    ensures
        compared_registers().filter(|x: CoreRegister| differs(a, b, x)).len() == 0,
{
    let pred = |x: CoreRegister| differs(a, b, x);
    assert forall|i: int| 0 <= i < compared_registers().len() implies !pred(#[trigger] compared_registers()[i]) by {
        if 18 <= i < 98 {
            let j = compared_fix_reg((i - 18) / 8);
            assert(0 <= j < NUM_FIXED_MTRRS);
            assert(a.mtrrfix@[j]@ == b.mtrrfix@[j]@);
        }
    }
    compared_registers().lemma_all_neg_filter_empty(pred);
}

/// A register the comparison visits is listed exactly when it differs.
proof fn lemma_listed_iff(a: CoreState, b: CoreState, i: int)
    requires
        0 <= i < NUM_COMPARED,
    ensures
        compared_registers().filter(|x: CoreRegister| differs(a, b, x)).contains(compared_register(i))
            <==> differs(a, b, compared_register(i)),
{
    let pred = |x: CoreRegister| differs(a, b, x);
    let cs = compared_registers();
    let l = cs.filter(pred);
    assert(cs[i] == compared_register(i));
    if differs(a, b, compared_register(i)) {
        cs.lemma_filter_contains(pred, i);
    }
    if l.contains(compared_register(i)) {
        let j = choose|j: int| 0 <= j < l.len() && l[j] == compared_register(i);
        cs.lemma_filter_pred(pred, j);
    }
}

/// The comparison of two cores lists every register they disagree on and no
/// other: each control register, the capability and default type registers,
/// each variable-range mask and base and each visited sub-range of the
/// fixed-range registers (all but 4K_F0000) is listed exactly when its values on
/// the two cores differ.  So two cores that are not the same, apart from
/// 4K_F0000, always give a non-empty list.
pub proof fn lemma_differences_listed(a: CoreState, b: CoreState)
    ensures
        compared_registers().filter(|x: CoreRegister| differs(a, b, x)).contains(CoreRegister::Xcr0) <==> a.xcr0 != b.xcr0,
        compared_registers().filter(|x: CoreRegister| differs(a, b, x)).contains(CoreRegister::Cr0) <==> a.cr0 != b.cr0,
        compared_registers().filter(|x: CoreRegister| differs(a, b, x)).contains(CoreRegister::Cr2) <==> a.cr2 != b.cr2,
        compared_registers().filter(|x: CoreRegister| differs(a, b, x)).contains(CoreRegister::Cr3) <==> a.cr3 != b.cr3,
        compared_registers().filter(|x: CoreRegister| differs(a, b, x)).contains(CoreRegister::Cr4) <==> a.cr4 != b.cr4,
        compared_registers().filter(|x: CoreRegister| differs(a, b, x)).contains(CoreRegister::Cr8) <==> a.cr8 != b.cr8,
        compared_registers().filter(|x: CoreRegister| differs(a, b, x)).contains(CoreRegister::Idtr) <==> a.idtr != b.idtr,
        compared_registers().filter(|x: CoreRegister| differs(a, b, x)).contains(CoreRegister::Gdtr) <==> a.gdtr != b.gdtr,
        compared_registers().filter(|x: CoreRegister| differs(a, b, x)).contains(CoreRegister::Efer) <==> a.efer != b.efer,
        compared_registers().filter(|x: CoreRegister| differs(a, b, x)).contains(CoreRegister::Syscfg) <==> a.syscfg != b.syscfg,
        compared_registers().filter(|x: CoreRegister| differs(a, b, x)).contains(CoreRegister::Star) <==> a.star != b.star,
        compared_registers().filter(|x: CoreRegister| differs(a, b, x)).contains(CoreRegister::Lstar) <==> a.lstar != b.lstar,
        compared_registers().filter(|x: CoreRegister| differs(a, b, x)).contains(CoreRegister::Cstar) <==> a.cstar != b.cstar,
        compared_registers().filter(|x: CoreRegister| differs(a, b, x)).contains(CoreRegister::Sfmask) <==> a.sfmask != b.sfmask,
        compared_registers().filter(|x: CoreRegister| differs(a, b, x)).contains(CoreRegister::FsBase) <==> a.fsbase != b.fsbase,
        compared_registers().filter(|x: CoreRegister| differs(a, b, x)).contains(CoreRegister::GsBase) <==> a.gsbase != b.gsbase,
        compared_registers().filter(|x: CoreRegister| differs(a, b, x)).contains(CoreRegister::KernelGsBase) <==> a.kernel_gsbase != b.kernel_gsbase,
        compared_registers().filter(|x: CoreRegister| differs(a, b, x)).contains(CoreRegister::MtrrCap) <==> a.mtrrcap != b.mtrrcap,
        compared_registers().filter(|x: CoreRegister| differs(a, b, x)).contains(CoreRegister::MtrrDefType) <==> a.mtrrdeftype != b.mtrrdeftype,
        forall|k: int|
            0 <= k < 8 ==> (compared_registers().filter(|x: CoreRegister| differs(a, b, x)).contains(CoreRegister::MtrrPhysMask(k as u8)) <==> a.mtrrphysmask@[k]
                != b.mtrrphysmask@[k]),
        forall|k: int|
            0 <= k < 8 ==> (compared_registers().filter(|x: CoreRegister| differs(a, b, x)).contains(CoreRegister::MtrrPhysBase(k as u8)) <==> a.mtrrphysbase@[k]
                != b.mtrrphysbase@[k]),
        forall|j: int, k: int|
            0 <= j < NUM_FIXED_MTRRS && j != 9 && 0 <= k < 8 ==> (compared_registers().filter(|x: CoreRegister| differs(a, b, x)).contains(
                CoreRegister::MtrrFix(j as u8, k as u8),
            ) <==> a.mtrrfix@[j]@[k] != b.mtrrfix@[j]@[k]),
        !same_state(a, b) && a.mtrrfix@[9]@ == b.mtrrfix@[9]@ ==> compared_registers().filter(|x: CoreRegister| differs(a, b, x)).len() > 0,
{
    lemma_listed_iff(a, b, 98);
    lemma_listed_iff(a, b, 99);
    lemma_listed_iff(a, b, 100);
    lemma_listed_iff(a, b, 101);
    lemma_listed_iff(a, b, 102);
    lemma_listed_iff(a, b, 103);
    lemma_listed_iff(a, b, 104);
    lemma_listed_iff(a, b, 105);
    lemma_listed_iff(a, b, 106);
    lemma_listed_iff(a, b, 107);
    lemma_listed_iff(a, b, 108);
    lemma_listed_iff(a, b, 109);
    lemma_listed_iff(a, b, 110);
    lemma_listed_iff(a, b, 111);
    lemma_listed_iff(a, b, 112);
    lemma_listed_iff(a, b, 113);
    lemma_listed_iff(a, b, 114);
    lemma_listed_iff(a, b, 16);
    lemma_listed_iff(a, b, 17);
    let l = compared_registers().filter(|x: CoreRegister| differs(a, b, x));
    assert forall|k: int| 0 <= k < 8 implies (l.contains(CoreRegister::MtrrPhysMask(k as u8)) <==> a.mtrrphysmask@[k]
        != b.mtrrphysmask@[k]) by {
        lemma_listed_iff(a, b, k);
    }
    assert forall|k: int| 0 <= k < 8 implies (l.contains(CoreRegister::MtrrPhysBase(k as u8)) <==> a.mtrrphysbase@[k]
        != b.mtrrphysbase@[k]) by {
        lemma_listed_iff(a, b, 8 + k);
    }
    assert forall|j: int, k: int|
        0 <= j < NUM_FIXED_MTRRS && j != 9 && 0 <= k < 8 implies (l.contains(CoreRegister::MtrrFix(j as u8, k as u8))
        <==> a.mtrrfix@[j]@[k] != b.mtrrfix@[j]@[k]) by {
        let jj = if j < 9 { j } else { 9 };
        let i = 18 + 8 * jj + k;
        assert((i - 18) / 8 == jj && (i - 18) % 8 == k);
        lemma_listed_iff(a, b, i);
    }
    if !same_state(a, b) && a.mtrrfix@[9]@ == b.mtrrfix@[9]@ && l.len() == 0 {
        assert forall|x: CoreRegister| !l.contains(x) by {}
        assert(a.mtrrphysmask@ =~= b.mtrrphysmask@);
        assert(a.mtrrphysbase@ =~= b.mtrrphysbase@);
        assert forall|j: int| 0 <= j < NUM_FIXED_MTRRS implies #[trigger] a.mtrrfix@[j]@ == b.mtrrfix@[j]@ by {
            if j != 9 {
                assert(a.mtrrfix@[j]@ =~= b.mtrrfix@[j]@);
            }
        }
        assert(false);
    }
}

/// Two cores are the same exactly when the comparison lists no register and
/// they agree on 4K_F0000, the one fixed-range register it does not visit.
pub proof fn lemma_same_state_iff_no_difference(a: CoreState, b: CoreState)
    ensures
        same_state(a, b) <==> compared_registers().filter(|x: CoreRegister| differs(a, b, x)).len() == 0
            && a.mtrrfix@[9]@ == b.mtrrfix@[9]@,
{
    if same_state(a, b) {
        lemma_same_state_no_difference(a, b);
    }
    lemma_differences_listed(a, b);
}

/// The comparison does not depend on which core is taken as the reference:
/// the registers that differ come out the same, in the same order.
pub proof fn lemma_difference_symmetric(a: CoreState, b: CoreState)
    ensures
        compared_registers().filter(|x: CoreRegister| differs(a, b, x)) == compared_registers().filter(
            |x: CoreRegister| differs(b, a, x),
        ),
{
    assert((|x: CoreRegister| differs(a, b, x)) =~= (|x: CoreRegister| differs(b, a, x)));
}

/// The enable bit of the fixed-range registers in the default type register.
pub const FIXED_ENABLE: u64 = 0x400;

/// The enable bit of all memory type registers in the default type register.
pub const MTRR_ENABLE: u64 = 0x800;

/// The type field of the default type and variable base registers.
pub const MTRR_TYPE: u64 = 0xff;

/// The base address bits of a variable base register and the mask bits of a
/// variable mask register.
pub const PHYS_ADDR_BITS: u64 = 0x000f_ffff_ffff_f000;

/// The valid bit of a variable mask register.
pub const MTRR_VALID: u64 = 0x800;

/// The write-back memory type.
pub const WRITE_BACK: u64 = 6;

/// Whether `t` is a memory type: uncacheable, write combining, write through,
/// write protect or write back.
pub open spec fn is_memory_type(t: u64) -> bool {
    t == 0 || t == 1 || t == 4 || t == 5 || t == 6
}

/// Why the memory type ranges are not as the kernel expects them.
#[derive(Debug, Clone, Copy, PartialEq, Eq, Structural)]
pub enum MtrrError {
    /// The memory type registers are disabled: all memory is uncacheable.
    NotEnabled,
    /// A type field holds no memory type; the field.
    InvalidType(u64),
    /// The default memory type is not write back; the type.
    DefaultNotWriteBack(u64),
    /// A variable range is enabled and valid.
    VariableRangeEnabled,
}

/// A variable memory type range that is enabled.
#[derive(Debug, Clone, Copy, PartialEq, Eq, Structural)]
pub struct VariableRange {
    pub index: u8,
    pub start: u64,
    pub end: u64,
    pub memory_type: u64,
}

/// Whether variable range `i` counts as enabled: its mask's valid bit, taken as
/// a number, equals one (the bit is bit 11, so no range ever does).
pub open spec fn variable_enabled(s: CoreState, i: int) -> bool {
    (s.mtrrphysmask@[i] & MTRR_VALID) == 1
}

/// The first variable range whose type field holds no memory type.
pub open spec fn first_bad_variable_type(s: CoreState, from: int) -> Option<int>
    decreases 8 - from,
{
    if from < 0 || from >= 8 {
        None
    } else if !is_memory_type(s.mtrrphysbase@[from] & MTRR_TYPE) {
        Some(from)
    } else {
        first_bad_variable_type(s, from + 1)
    }
}

/// The outcome of the checks on the variable memory type ranges: the registers
/// must be enabled with write back as the default type, every variable range
/// must have a valid type, and no range may count as enabled.
pub open spec fn variable_check(s: CoreState) -> Result<(), MtrrError> {
    if s.mtrrdeftype & MTRR_ENABLE == 0 {
        Err(MtrrError::NotEnabled)
    } else if !is_memory_type(s.mtrrdeftype & MTRR_TYPE) {
        Err(MtrrError::InvalidType(s.mtrrdeftype & MTRR_TYPE))
    } else if s.mtrrdeftype & MTRR_TYPE != WRITE_BACK {
        Err(MtrrError::DefaultNotWriteBack(s.mtrrdeftype & MTRR_TYPE))
    } else {
        match first_bad_variable_type(s, 0) {
            Some(i) => Err(MtrrError::InvalidType(s.mtrrphysbase@[i] & MTRR_TYPE)),
            None => if exists|i: int| 0 <= i < 8 && variable_enabled(s, i) {
                Err(MtrrError::VariableRangeEnabled)
            } else {
                Ok(())
            },
        }
    }
}

fn is_memory_type_exec(t: u64) -> (r: bool)
    ensures
        r == is_memory_type(t),
{
    t == 0 || t == 1 || t == 4 || t == 5 || t == 6
}

/// The last address of a variable range that starts at `start`: the bits below
/// its lowest set bit, rounded down to a multiple of four, are all set.
pub open spec fn variable_end(start: u64) -> u64 {
    let a = start.trailing_zeros();
    start | !(u64::MAX.wrapping_shl((a - a % 4) as u32))
}

impl CoreState {
    /// The range variable register `i` covers: from the masked base address up
    /// to the end its lowest set address bit (rounded down to a multiple of four)
    /// gives.
    pub fn variable_range(&self, i: usize) -> (r: VariableRange)
        requires
            i < 8,
        ensures
            r.index == i,
            r.start == (self.mtrrphysmask@[i as int] & PHYS_ADDR_BITS) & (self.mtrrphysbase@[i as int] & PHYS_ADDR_BITS),
            r.memory_type == self.mtrrphysbase@[i as int] & MTRR_TYPE,
            r.end == variable_end(r.start),
    {
        let physbase = self.mtrrphysbase[i] & PHYS_ADDR_BITS;
        let physmask = self.mtrrphysmask[i] & PHYS_ADDR_BITS;
        let start = physmask & physbase;
        let a = start.trailing_zeros();
        let endmask = !(u64::MAX.wrapping_shl(a - a % 4));
        VariableRange { index: i as u8, start, end: start | endmask, memory_type: self.mtrrphysbase[i] & MTRR_TYPE }
    }

    /// Checks the variable memory type ranges (see `variable_check`) and returns
    /// the ranges that count as enabled.
    pub fn print_variable_mtrrs(&self) -> (r: Result<Vec<VariableRange>, MtrrError>)
        ensures
            variable_check(*self) is Err ==> r == Err::<Vec<VariableRange>, MtrrError>(variable_check(*self)->Err_0),
            variable_check(*self) is Ok ==> (r matches Ok(v) && v@.len() == 0),
    {
        if self.mtrrdeftype & MTRR_ENABLE == 0 {
            return Err(MtrrError::NotEnabled);
        }
        let default_type = self.mtrrdeftype & MTRR_TYPE;
        if !is_memory_type_exec(default_type) {
            return Err(MtrrError::InvalidType(default_type));
        }
        if default_type != WRITE_BACK {
            return Err(MtrrError::DefaultNotWriteBack(default_type));
        }
        let mut ranges: Vec<VariableRange> = Vec::new();
        let mut i: usize = 0;
        while i < 8
            invariant
                i <= 8,
                self.mtrrdeftype & MTRR_ENABLE != 0,
                is_memory_type(self.mtrrdeftype & MTRR_TYPE),
                self.mtrrdeftype & MTRR_TYPE == WRITE_BACK,
                first_bad_variable_type(*self, 0) == first_bad_variable_type(*self, i as int),
                forall|j: int| 0 <= j < i ==> is_memory_type(#[trigger] (self.mtrrphysbase@[j] & MTRR_TYPE)),
                ranges@.len() == 0 ==> forall|j: int| 0 <= j < i ==> !variable_enabled(*self, j),
                ranges@.len() > 0 ==> exists|j: int| 0 <= j < i && variable_enabled(*self, j),
            decreases 8 - i,
        {
            let range = self.variable_range(i);
            if !is_memory_type_exec(range.memory_type) {
                return Err(MtrrError::InvalidType(range.memory_type));
            }
            if (self.mtrrphysmask[i] & MTRR_VALID) == 1 {
                ranges.push(range);
                assert(variable_enabled(*self, i as int));
            } else {
                assert(!variable_enabled(*self, i as int));
            }
            i = i + 1;
        }
        if ranges.len() > 0 {
            return Err(MtrrError::VariableRangeEnabled);
        }
        Ok(ranges)
    }
}

/// A line of the listing of the fixed memory type ranges: where a run of one
/// memory type ends and the next starts, and where the last run ends.
#[derive(Debug, Clone, Copy, PartialEq, Eq, Structural)]
pub enum FixedMtrrLine {
    Change { end: u64, memory_type: u8, next_start: u64 },
    Last { end: u64, memory_type: u8 },
}

/// The lines the listing adds from step `step` on (step `7 * i + z` compares
/// sub-ranges `z` and `z + 1` of the `i`-th listed register), `last` being the
/// sub-range that started the current run.
pub open spec fn fixed_lines_from(s: CoreState, step: int, last: Option<FixedRange>) -> Seq<FixedMtrrLine>
    decreases 70 - step,
{
    if step < 0 || step >= 70 {
        Seq::empty()
    } else {
        let i = step / 7;
        let z = step % 7;
        let reg = s.mtrrfix@[compared_fix_reg(i)]@;
        let prange = reg[z];
        let range = reg[z + 1];
        match last {
            Some(l) => {
                let changed = range.memory_type != l.memory_type;
                let lines = if changed {
                    seq![FixedMtrrLine::Change { end: prange.end, memory_type: prange.memory_type, next_start: range.start }]
                } else {
                    Seq::empty()
                };
                let lines = if i + 1 == 10 && z + 1 == 7 {
                    lines.push(FixedMtrrLine::Last { end: range.end, memory_type: range.memory_type })
                } else {
                    lines
                };
                lines + fixed_lines_from(
                    s,
                    step + 1,
                    if changed {
                        Some(range)
                    } else {
                        last
                    },
                )
            },
            None => fixed_lines_from(s, step + 1, Some(range)),
        }
    }
}

impl CoreState {
    /// The listing of the fixed memory type ranges, or `None` when they are
    /// disabled.  The ranges of each listed register (all but 4K_F0000) are
    /// walked pairwise; a line is added where the memory type changes, and one
    /// for the end of the last range.
    pub fn print_fixed_mtrrs(&self) -> (r: Option<Vec<FixedMtrrLine>>)
        ensures
            self.mtrrdeftype & FIXED_ENABLE == 0 ==> r is None,
            self.mtrrdeftype & FIXED_ENABLE != 0 ==> (r matches Some(v) && v@ == fixed_lines_from(*self, 0, None)),
    {
        if self.mtrrdeftype & FIXED_ENABLE == 0 {
            return None;
        }
        let mut lines: Vec<FixedMtrrLine> = Vec::new();
        let mut last: Option<FixedRange> = None;
        let mut step: usize = 0;
        while step < 70
            invariant
                step <= 70,
                self.mtrrfix@.len() == NUM_FIXED_MTRRS,
                lines@ + fixed_lines_from(*self, step as int, last) == fixed_lines_from(*self, 0, None),
            decreases 70 - step,
        {
            let i = step / 7;
            let z = step % 7;
            let reg_index: usize = if i < 9 {
                i
            } else {
                10
            };
            let reg = self.mtrrfix[reg_index];
            assert(reg@.len() == 8);
            let prange = reg[z];
            let range = reg[z + 1];
            let ghost before = lines@;
            let ghost rest = fixed_lines_from(*self, step + 1, match last {
                Some(l) => if range.memory_type != l.memory_type {
                    Some(range)
                } else {
                    last
                },
                None => Some(range),
            });
            match last {
                Some(l) => {
                    if range.memory_type != l.memory_type {
                        lines.push(
                            FixedMtrrLine::Change { end: prange.end, memory_type: prange.memory_type, next_start: range.start },
                        );
                        last = Some(range);
                    }
                    if i + 1 == 10 && z + 1 == 7 {
                        lines.push(FixedMtrrLine::Last { end: range.end, memory_type: range.memory_type });
                    }
                },
                None => {
                    last = Some(range);
                },
            }
            proof {
                let added = lines@.skip(before.len() as int);
                assert(lines@ =~= before + added);
                assert(before + (added + rest) =~= (before + added) + rest);
            }
            step = step + 1;
        }
        assert(lines@ + fixed_lines_from(*self, 70, last) =~= lines@);
        Some(lines)
    }
}

} // verus!

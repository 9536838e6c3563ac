//! Turning on the x87, SSE and AVX units: the processor features that must be
//! present and the control register values that enable them.  The bootloader
//! reads `cpuid` and the control registers and writes back what comes out here.
use vstd::prelude::*;

verus! {

/// CR0 bits: monitor coprocessor, emulate coprocessor, task switched.
pub const CR0_MONITOR_COPROCESSOR: u64 = 0x2;
pub const CR0_EMULATE_COPROCESSOR: u64 = 0x4;
pub const CR0_TASK_SWITCHED: u64 = 0x8;

/// CR4 bits: FXSAVE/FXRSTOR and SSE, unmasked SIMD exceptions, XSAVE.
pub const CR4_OSFXSR: u64 = 0x200;
pub const CR4_OSXMMEXCPT: u64 = 0x400;
pub const CR4_OSXSAVE: u64 = 0x4_0000;

/// XCR0 bits: x87 state, SSE state, AVX (YMM) state.
pub const XCR0_X87: u64 = 0x1;
pub const XCR0_SSE: u64 = 0x2;
pub const XCR0_YMM: u64 = 0x4;

/// A feature the processor lacks.
#[derive(Debug, Clone, Copy, PartialEq, Eq, Structural)]
pub enum MediaError {
    NoSse3,
    NoFpu,
    NoXsave,
    NoExtendedSse,
}

/// The control register values after turning on the legacy SSE instructions:
/// CR4 with FXSAVE/SSE on, CR0 with coprocessor emulation and the task switched
/// flag off and coprocessor monitoring on.
#[derive(Debug, Clone, Copy, PartialEq, Eq, Structural)]
pub struct LegacySse {
    pub cr4: u64,
    pub cr0: u64,
}

/// Turns on the legacy SSE instructions: `cpuid` leaf 1 must report SSE3 (bit 9
/// of `ecx`) and the x87 unit (bit 0 of `edx`).
pub fn legacy_sse(ecx: u32, edx: u32, cr0: u64, cr4: u64) -> (r: Result<LegacySse, MediaError>)
    ensures
        ecx & 0x200 == 0 ==> r == Err::<LegacySse, MediaError>(MediaError::NoSse3),
        ecx & 0x200 != 0 && edx & 1 == 0 ==> r == Err::<LegacySse, MediaError>(MediaError::NoFpu),
        ecx & 0x200 != 0 && edx & 1 != 0 ==> r == Ok::<LegacySse, MediaError>(
            LegacySse {
                cr4: cr4 | CR4_OSFXSR,
                cr0: ((cr0 & !CR0_EMULATE_COPROCESSOR) | CR0_MONITOR_COPROCESSOR) & !CR0_TASK_SWITCHED,
            },
        ),
{
    if ecx & 0x200 == 0 {
        return Err(MediaError::NoSse3);
    }
    if edx & 1 == 0 {
        return Err(MediaError::NoFpu);
    }
    Ok(
        LegacySse {
            cr4: cr4 | CR4_OSFXSR,
            cr0: ((cr0 & !CR0_EMULATE_COPROCESSOR) | CR0_MONITOR_COPROCESSOR) & !CR0_TASK_SWITCHED,
        },
    )
}

/// The register values after turning on the extended SSE instructions: CR4 as
/// written (XSAVE on and nothing else), XCR0 with the SSE and AVX state on, the
/// size of the XSAVE area, and whether XSAVEOPT is missing.
#[derive(Debug, Clone, Copy, PartialEq, Eq, Structural)]
pub struct ExtendedSse {
    pub cr4: u64,
    pub xcr0: u64,
    pub save_area_size: u32,
    pub xsaveopt_missing: bool,
}

/// Turns on the extended SSE instructions: `cpuid` leaf 1 must report XSAVE (bit
/// 26 of `ecx`), and leaf `0xd` the x87, SSE and AVX state (bits 0 to 2 of
/// `eax`).  XSAVEOPT (bit 0 of `eax` of leaf `0xd`, sub-leaf 1) is optional.
pub fn extended_sse(ecx: u32, d1_eax: u32, d0_eax: u32, d0_ebx: u32, xcr0: u64) -> (r: Result<
    ExtendedSse,
    MediaError,
>)
    ensures
        ecx & 0x400_0000 == 0 ==> r == Err::<ExtendedSse, MediaError>(MediaError::NoXsave),
        ecx & 0x400_0000 != 0 && d0_eax & 7 != 7 ==> r == Err::<ExtendedSse, MediaError>(
            MediaError::NoExtendedSse,
        ),
        ecx & 0x400_0000 != 0 && d0_eax & 7 == 7 ==> r == Ok::<ExtendedSse, MediaError>(
            ExtendedSse {
                cr4: CR4_OSXSAVE,
                xcr0: xcr0 | XCR0_SSE | XCR0_YMM,
                save_area_size: d0_ebx,
                xsaveopt_missing: d1_eax & 1 == 0,
            },
        ),
{
    if ecx & 0x400_0000 == 0 {
        return Err(MediaError::NoXsave);
    }
    let xsaveopt_missing = d1_eax & 1 == 0;
    if d0_eax & 7 != 7 {
        return Err(MediaError::NoExtendedSse);
    }
    Ok(
        ExtendedSse {
            cr4: CR4_OSXSAVE,
            xcr0: xcr0 | XCR0_SSE | XCR0_YMM,
            save_area_size: d0_ebx,
            xsaveopt_missing,
        },
    )
}

/// The processor features the kernel's bootloader asks `cpuid` for.
#[derive(Debug, Clone, Copy, PartialEq, Eq, Structural)]
pub struct MediaFeatures {
    pub fpu: bool,
    pub sse: bool,
    pub xsave: bool,
    pub xgetbv: bool,
    pub xcr0_x87: bool,
    pub xcr0_sse: bool,
    pub xcr0_avx: bool,
    pub avx: bool,
}

/// How far turning on the media extensions got: the control register values to
/// write so far.
#[derive(Debug, Clone, Copy)]
pub struct MediaSetup {
    /// CR4 and CR0 after the legacy SSE step, when the x87 unit and SSE exist.
    pub legacy: Option<(u64, u64)>,
    /// CR4 and XCR0 after the AVX step, when everything exists.
    pub extended: Option<(u64, u64)>,
}

/// Turns on the x87 unit, SSE and AVX as far as the processor supports them,
/// stopping at the first missing feature: the legacy step needs the x87 unit and
/// SSE, the AVX step XSAVE, XGETBV and the x87, SSE and AVX state in XCR0 and AVX.
pub fn media_setup(f: MediaFeatures, cr0: u64, cr4: u64, xcr0: u64) -> (r: MediaSetup)
    ensures
        !(f.fpu && f.sse) ==> r.legacy is None && r.extended is None,
        f.fpu && f.sse ==> r.legacy == Some(
            (
                cr4 | CR4_OSFXSR | CR4_OSXMMEXCPT,
                ((cr0 & !CR0_EMULATE_COPROCESSOR) | CR0_MONITOR_COPROCESSOR) & !CR0_TASK_SWITCHED,
            ),
        ),
        f.fpu && f.sse && !(f.xsave && f.xgetbv && f.xcr0_x87 && f.xcr0_sse && f.xcr0_avx && f.avx)
            ==> r.extended is None,
        f.fpu && f.sse && f.xsave && f.xgetbv && f.xcr0_x87 && f.xcr0_sse && f.xcr0_avx && f.avx
            ==> r.extended == Some((cr4 | CR4_OSFXSR | CR4_OSXMMEXCPT | CR4_OSXSAVE, xcr0 | XCR0_X87 | XCR0_YMM | XCR0_SSE)),
{
    if !f.fpu || !f.sse {
        return MediaSetup { legacy: None, extended: None };
    }
    let cr4 = cr4 | CR4_OSFXSR | CR4_OSXMMEXCPT;
    let cr0 = ((cr0 & !CR0_EMULATE_COPROCESSOR) | CR0_MONITOR_COPROCESSOR) & !CR0_TASK_SWITCHED;
    if !f.xsave || !f.xgetbv || !f.xcr0_x87 || !f.xcr0_sse || !f.xcr0_avx || !f.avx {
        return MediaSetup { legacy: Some((cr4, cr0)), extended: None };
    }
    MediaSetup { legacy: Some((cr4, cr0)), extended: Some((cr4 | CR4_OSXSAVE, xcr0 | XCR0_X87 | XCR0_YMM | XCR0_SSE)) }
}

} // verus!

//! Reading the ACPI tables the firmware leaves in memory: the root pointer, the
//! root table, the interrupt controller table (MADT) and the resource affinity
//! table (SRAT).  The kernel copies a table's bytes out of physical memory and
//! hands them to these functions.
use vstd::prelude::*;
use std::collections::BTreeMap;
use crate::bytes::{byte_sum, checksum, le_u16, le_u32, le_u64, read_u16, read_u32, read_u64};

verus! {

/// The size of a table header.
pub const HEADER_SIZE: usize = 36;

/// The size of the root pointer structure, and of its extended form.
pub const RSDP_SIZE: usize = 20;
pub const RSDP_EXTENDED_SIZE: usize = 36;

/// Table signatures, as the little-endian number of their four bytes.
pub const SIG_RSDT: u32 = 0x5444_5352;
pub const SIG_APIC: u32 = 0x4349_5041;
pub const SIG_SRAT: u32 = 0x5441_5253;

/// The root pointer signature `RSD PTR `, as a little-endian number.
pub const SIG_RSDP: u64 = 0x2052_5450_2044_5352;

/// Why an ACPI table cannot be read.
#[derive(Debug, Clone, Copy, PartialEq, Eq, Structural)]
pub enum AcpiError {
    /// The table's length is smaller than its header.
    TableTooShort,
    /// The table's bytes do not sum to zero; the sum.
    BadChecksum(u8),
    /// The root table's signature is not `RSDT`.
    RsdtSignature,
    /// The root table's size is not a multiple of four.
    RsdtSize,
    /// An entry of the MADT or SRAT is shorter than two bytes.
    BadEntryLength,
    /// A MADT entry has the wrong length for its type.
    InvalidLapicEntry,
    InvalidIoApicEntry,
    InvalidOverrideEntry,
    InvalidX2ApicEntry,
    /// An SRAT entry has the wrong length for its type.
    InvalidApicAffinity,
    InvalidMemoryAffinity,
    InvalidX2ApicAffinity,
    /// Two SRAT entries give an affinity domain to the same APIC.
    DuplicateApicAffinity,
    /// A memory affinity range ends beyond the 64-bit address space.
    MemoryRangeOverflow,
    /// A second MADT or SRAT.
    DuplicateTable,
}

/// The header every ACPI table starts with.
#[derive(Debug, Clone, Copy, PartialEq, Eq, Structural)]
pub struct TableHeader {
    pub signature: u32,
    pub length: u32,
    pub revision: u8,
    pub checksum: u8,
    pub oem_table_id: u64,
    pub oem_revision: u32,
    pub creator_id: u32,
    pub creator_revision: u32,
}

/// The header at the start of `b`.
pub open spec fn header_at(b: Seq<u8>) -> TableHeader {
    TableHeader {
        signature: le_u32(b, 0) as u32,
        length: le_u32(b, 4) as u32,
        revision: b[8],
        checksum: b[9],
        oem_table_id: le_u64(b, 16) as u64,
        oem_revision: le_u32(b, 24) as u32,
        creator_id: le_u32(b, 28) as u32,
        creator_revision: le_u32(b, 32) as u32,
    }
}

/// Reads the header at the start of a table.
pub fn read_header(b: &[u8]) -> (r: TableHeader)
    requires
        b@.len() >= HEADER_SIZE,
    ensures
        r == header_at(b@),
{
    TableHeader {
        signature: read_u32(b, 0),
        length: read_u32(b, 4),
        revision: b[8],
        checksum: b[9],
        oem_table_id: read_u64(b, 16),
        oem_revision: read_u32(b, 24),
        creator_id: read_u32(b, 28),
        creator_revision: read_u32(b, 32),
    }
}

/// Checks a table: its length covers the header and its bytes sum to zero.  The
/// header and the size of the table's payload behind the header come back.
pub fn parse_header(table: &[u8]) -> (r: Result<(TableHeader, usize), AcpiError>)
    requires
        table@.len() >= HEADER_SIZE,
        le_u32(table@, 4) >= HEADER_SIZE ==> table@.len() >= le_u32(table@, 4),
    ensures
        le_u32(table@, 4) < HEADER_SIZE ==> r == Err::<(TableHeader, usize), AcpiError>(
            AcpiError::TableTooShort,
        ),
        le_u32(table@, 4) >= HEADER_SIZE ==> {
            let sum = (byte_sum(table@.take(le_u32(table@, 4))) % 256) as u8;
            &&& sum != 0 ==> r == Err::<(TableHeader, usize), AcpiError>(AcpiError::BadChecksum(sum))
            &&& sum == 0 ==> r == Ok::<(TableHeader, usize), AcpiError>(
                (header_at(table@), (le_u32(table@, 4) - HEADER_SIZE) as usize),
            )
        },
{
    let head = read_header(table);
    if head.length < HEADER_SIZE as u32 {
        return Err(AcpiError::TableTooShort);
    }
    let table_len = head.length - HEADER_SIZE as u32;
    let body = slice_prefix(table, head.length as usize);
    let sum = checksum(body.as_slice());
    if sum != 0 {
        return Err(AcpiError::BadChecksum(sum));
    }
    Ok((head, table_len as usize))
}

/// The first `n` bytes of `b`.
fn slice_prefix(b: &[u8], n: usize) -> (r: Vec<u8>)
    requires
        n <= b@.len(),
    ensures
        r@ == b@.take(n as int),
{
    let mut r: Vec<u8> = Vec::new();
    let mut i: usize = 0;
    while i < n
        invariant
            n <= b@.len(),
            i <= n,
            r@ == b@.take(i as int),
        decreases n - i,
    {
        r.push(b[i]);
        i = i + 1;
        assert(r@ =~= b@.take(i as int));
    }
    r
}

/// The root system description pointer.
#[derive(Debug, Clone, Copy, PartialEq, Eq, Structural)]
pub struct Rsdp {
    pub signature: u64,
    pub checksum: u8,
    pub revision: u8,
    pub rsdt_addr: u32,
}

/// The root pointer at the start of `b`.
pub open spec fn rsdp_at(b: Seq<u8>) -> Rsdp {
    Rsdp { signature: le_u64(b, 0) as u64, checksum: b[8], revision: b[15], rsdt_addr: le_u32(b, 16) as u32 }
}

/// Whether `b` starts with a valid root pointer: the signature is `RSD PTR `, its
/// 20 bytes sum to zero, and for a revision above zero the 36 bytes of the
/// extended structure sum to zero too.
pub open spec fn rsdp_valid(b: Seq<u8>) -> bool {
    &&& le_u64(b, 0) == SIG_RSDP
    &&& byte_sum(b.take(RSDP_SIZE as int)) % 256 == 0
    &&& b[15] > 0 ==> byte_sum(b.take(RSDP_EXTENDED_SIZE as int)) % 256 == 0
}

/// Returns the root pointer at the start of `b` when it is valid.
pub fn check_rsdp(b: &[u8]) -> (r: Option<Rsdp>)
    requires
        b@.len() >= RSDP_SIZE,
        b@[15] > 0 ==> b@.len() >= RSDP_EXTENDED_SIZE,
    ensures
        rsdp_valid(b@) ==> r == Some(rsdp_at(b@)),
        !rsdp_valid(b@) ==> r is None,
{
    if read_u64(b, 0) != SIG_RSDP {
        return None;
    }
    let head = slice_prefix(b, RSDP_SIZE);
    if checksum(head.as_slice()) != 0 {
        return None;
    }
    if b[15] > 0 {
        let ext = slice_prefix(b, RSDP_EXTENDED_SIZE);
        if checksum(ext.as_slice()) != 0 {
            return None;
        }
    }
    Some(Rsdp { signature: read_u64(b, 0), checksum: b[8], revision: b[15], rsdt_addr: read_u32(b, 16) })
}

/// `addr` rounded up to a multiple of `align`, a power of two.
pub open spec fn align_up_spec(addr: int, align: int) -> int {
    if addr % align == 0 {
        addr
    } else {
        addr + (align - addr % align)
    }
}

/// The addresses at which the root pointer is searched: every 16 bytes of the
/// first KiB of the extended BIOS data area at `ebda`, then of `0xe0000` to
/// `0xfffff`, from the first 16-byte boundary of each, as long as the whole
/// pointer (`RSDP_SIZE` bytes) still lies inside the area.
pub open spec fn rsdp_candidates_spec(ebda: u16) -> Seq<u32> {
    let s1 = align_up_spec(ebda as int, 16);
    let e1 = ebda + 1023 - (RSDP_SIZE - 1);
    let s2 = 0xe0000int;
    let e2 = 0xfffffint - (RSDP_SIZE - 1);
    Seq::new(((e1 - s1) / 16 + 1) as nat, |k: int| (s1 + 16 * k) as u32) + Seq::new(
        ((e2 - s2) / 16 + 1) as nat,
        |k: int| (s2 + 16 * k) as u32,
    )
}

/// Returns the addresses at which the root pointer is searched, in order.
pub fn rsdp_candidates(ebda: u16) -> (r: Vec<u32>)
    ensures
        r@ == rsdp_candidates_spec(ebda),
{
    let mut r: Vec<u32> = Vec::new();
    let e1: u32 = ebda as u32 + 1023 - (RSDP_SIZE as u32 - 1);
    let rem = ebda as u32 % 16;
    let s1: u32 = if rem == 0 {
        ebda as u32
    } else {
        ebda as u32 + (16 - rem)
    };
    let ghost first = Seq::new(((e1 - s1) / 16 + 1) as nat, |k: int| (s1 + 16 * k) as u32);
    let mut a = s1;
    let ghost mut k: int = 0;
    while a <= e1
        invariant
            e1 == ebda + 1023 - (RSDP_SIZE - 1),
            s1 <= e1,
            a == s1 + 16 * k,
            k >= 0,
            a <= e1 + 16,
            r@ == first.take(k),
            first.len() == (e1 - s1) / 16 + 1,
            k <= first.len(),
            a <= e1 ==> k < first.len(),
            a > e1 ==> k == first.len(),
            forall|j: int| 0 <= j < first.len() ==> #[trigger] first[j] == (s1 + 16 * j) as u32,
        decreases e1 + 16 - a,
    {
        r.push(a);
        proof {
            k = k + 1;
        }
        assert(r@ =~= first.take(k));
        a = a + 16;
        proof {
            assert(a <= e1 ==> k < first.len()) by (nonlinear_arith)
                requires
                    a == s1 + 16 * k,
                    first.len() == (e1 - s1) / 16 + 1,
                    s1 <= e1,
            ;
            assert(a > e1 ==> k == first.len()) by (nonlinear_arith)
                requires
                    a == s1 + 16 * k,
                    first.len() == (e1 - s1) / 16 + 1,
                    k <= first.len(),
                    s1 <= e1,
            ;
        }
    }
    assert(r@ =~= first.take(first.len() as int));
    assert(r@ =~= first);
    let ghost second = Seq::new(((0xfffffint - (RSDP_SIZE - 1) - 0xe0000) / 16 + 1) as nat, |j: int| (0xe0000 + 16 * j) as u32);
    let mut b: u32 = 0xe0000;
    let ghost mut m: int = 0;
    while b <= 0xfffec
        invariant
            r@ == first + second.take(m),
            b == 0xe0000 + 16 * m,
            0 <= m <= second.len(),
            second.len() == 0x1fff,
            b <= 0xfffec ==> m < second.len(),
            b > 0xfffec ==> m == second.len(),
            forall|j: int| 0 <= j < second.len() ==> #[trigger] second[j] == (0xe0000 + 16 * j) as u32,
        decreases 0x100000 - b,
    {
        r.push(b);
        proof {
            m = m + 1;
        }
        assert(r@ =~= first + second.take(m));
        b = b + 16;
    }
    assert(second.take(m) =~= second);
    proof {
        assert(s1 == align_up_spec(ebda as int, 16));
    }
    r
}

/// Checks the root table and returns the addresses of the tables it lists.
pub fn rsdt_entries(header: &TableHeader, payload: &[u8]) -> (r: Result<Vec<u32>, AcpiError>)
    ensures
        header.signature != SIG_RSDT ==> r == Err::<Vec<u32>, AcpiError>(AcpiError::RsdtSignature),
        header.signature == SIG_RSDT && payload@.len() % 4 != 0 ==> r == Err::<Vec<u32>, AcpiError>(
            AcpiError::RsdtSize,
        ),
        header.signature == SIG_RSDT && payload@.len() % 4 == 0 ==> (r matches Ok(v) && v@.len()
            == payload@.len() / 4 && forall|k: int| 0 <= k < v@.len() ==> #[trigger] v@[k] == le_u32(payload@, 4 * k)),
{
    if header.signature != SIG_RSDT {
        return Err(AcpiError::RsdtSignature);
    }
    if payload.len() % 4 != 0 {
        return Err(AcpiError::RsdtSize);
    }
    let len = payload.len();
    let n = len / 4;
    let mut v: Vec<u32> = Vec::new();
    let mut k: usize = 0;
    while k < n
        invariant
            n == payload@.len() / 4,
            len == payload@.len(),
            4 * n == len,
            payload@.len() % 4 == 0,
            k <= n,
            v@.len() == k,
            forall|j: int| 0 <= j < k ==> #[trigger] v@[j] == le_u32(payload@, 4 * j),
        decreases n - k,
    {
        v.push(read_u32(payload, 4 * k));
        k = k + 1;
    }
    Ok(v)
}

/// A processor's local APIC entry of the MADT.
#[derive(Debug, Clone, Copy, PartialEq, Eq, Structural)]
pub struct LocalApic {
    pub typ: u8,
    pub length: u8,
    pub processor_uid: u8,
    pub id: u8,
    pub flags: u32,
}

/// An I/O APIC entry of the MADT.
#[derive(Debug, Clone, Copy, PartialEq, Eq, Structural)]
pub struct IoApic {
    pub typ: u8,
    pub length: u8,
    pub id: u8,
    pub res0: u8,
    pub address: u32,
    pub interrupt_base: u32,
}

/// An interrupt source override entry of the MADT.
#[derive(Debug, Clone, Copy, PartialEq, Eq, Structural)]
pub struct IntOverride {
    pub typ: u8,
    pub length: u8,
    pub bus: u8,
    pub source: u8,
    pub mapped_to: u32,
    pub flags: u16,
}

/// A non-maskable interrupt entry of the MADT.
#[derive(Debug, Clone, Copy, PartialEq, Eq, Structural)]
pub struct NonMaskableInts {
    pub typ: u8,
    pub length: u8,
    pub flags: u16,
    pub int_num: u32,
}

/// The local APIC entry at `off`.
pub open spec fn lapic_at(b: Seq<u8>, off: int) -> LocalApic {
    LocalApic { typ: b[off], length: b[off + 1], processor_uid: b[off + 2], id: b[off + 3], flags: le_u32(b, off + 4) as u32 }
}

/// The I/O APIC entry at `off`.
pub open spec fn ioapic_at(b: Seq<u8>, off: int) -> IoApic {
    IoApic {
        typ: b[off],
        length: b[off + 1],
        id: b[off + 2],
        res0: b[off + 3],
        address: le_u32(b, off + 4) as u32,
        interrupt_base: le_u32(b, off + 8) as u32,
    }
}

/// The interrupt source override entry at `off`.
pub open spec fn override_at(b: Seq<u8>, off: int) -> IntOverride {
    IntOverride {
        typ: b[off],
        length: b[off + 1],
        bus: b[off + 2],
        source: b[off + 3],
        mapped_to: le_u32(b, off + 4) as u32,
        flags: le_u16(b, off + 8) as u16,
    }
}

/// The non-maskable interrupt entry at `off`.
pub open spec fn nmi_at(b: Seq<u8>, off: int) -> NonMaskableInts {
    NonMaskableInts { typ: b[off], length: b[off + 1], flags: le_u16(b, off + 2) as u16, int_num: le_u32(b, off + 4) as u32 }
}

/// Whether a processor is enabled or can be enabled.
pub open spec fn lapic_usable(l: LocalApic) -> bool {
    (l.flags & 1u32) != 0 || (l.flags & 2u32) != 0
}

fn read_lapic(b: &[u8], off: usize) -> (r: LocalApic)
    requires
        off + 8 <= b@.len(),
    ensures
        r == lapic_at(b@, off as int),
        r.typ == b@[off as int] && r.length == b@[off + 1],
        r.processor_uid == b@[off + 2] && r.id == b@[off + 3],
{
    LocalApic { typ: b[off], length: b[off + 1], processor_uid: b[off + 2], id: b[off + 3], flags: read_u32(b, off + 4) }
}

fn read_ioapic(b: &[u8], off: usize) -> (r: IoApic)
    requires
        off + 12 <= b@.len(),
    ensures
        r == ioapic_at(b@, off as int),
        r.typ == b@[off as int] && r.length == b@[off + 1],
        r.id == b@[off + 2] && r.res0 == b@[off + 3],
{
    IoApic {
        typ: b[off],
        length: b[off + 1],
        id: b[off + 2],
        res0: b[off + 3],
        address: read_u32(b, off + 4),
        interrupt_base: read_u32(b, off + 8),
    }
}

fn read_override(b: &[u8], off: usize) -> (r: IntOverride)
    requires
        off + 10 <= b@.len(),
    ensures
        r == override_at(b@, off as int),
        r.typ == b@[off as int] && r.length == b@[off + 1],
        r.bus == b@[off + 2] && r.source == b@[off + 3],
{
    IntOverride {
        typ: b[off],
        length: b[off + 1],
        bus: b[off + 2],
        source: b[off + 3],
        mapped_to: read_u32(b, off + 4),
        flags: read_u16(b, off + 8),
    }
}

impl NonMaskableInts {
    /// Reads the entry at `off`.
    pub fn from_bytes(b: &[u8], off: usize) -> (r: NonMaskableInts)
        requires
            off + 8 <= b@.len(),
        ensures
            r == nmi_at(b@, off as int),
            r.typ == b@[off as int] && r.length == b@[off + 1],
    {
        NonMaskableInts { typ: b[off], length: b[off + 1], flags: read_u16(b, off + 2), int_num: read_u32(b, off + 4) }
    }
}

/// The error a MADT entry of type `typ` and length `len` gives, if any.
pub open spec fn madt_entry_error(typ: u8, len: u8) -> Option<AcpiError> {
    if len < 2 {
        Some(AcpiError::BadEntryLength)
    } else if typ == 0 && len != 8 {
        Some(AcpiError::InvalidLapicEntry)
    } else if typ == 1 && len != 12 {
        Some(AcpiError::InvalidIoApicEntry)
    } else if typ == 2 && len != 10 {
        Some(AcpiError::InvalidOverrideEntry)
    } else if typ == 9 && len != 16 {
        Some(AcpiError::InvalidX2ApicEntry)
    } else {
        None
    }
}

/// The interrupt controllers a MADT lists.
pub struct Madt {
    pub lapics: Vec<LocalApic>,
    pub ioapics: Vec<IoApic>,
    pub int_overrides: Vec<IntOverride>,
}

/// The entries the MADT payload `b` lists from `off` on: the usable local APICs
/// (of local and x2 APIC entries, both read as a local APIC entry), the I/O APICs
/// and the overrides that map an interrupt elsewhere, each in table order.  The
/// walk stops at an entry that does not fit in the payload.
pub open spec fn madt_walk(b: Seq<u8>, off: int) -> Result<(Seq<LocalApic>, Seq<IoApic>, Seq<IntOverride>), AcpiError>
    decreases b.len() - off,
{
    if off < 0 || off + 2 > b.len() || off + b[off + 1] > b.len() {
        Ok((Seq::empty(), Seq::empty(), Seq::empty()))
    } else {
        let typ = b[off];
        let len = b[off + 1];
        match madt_entry_error(typ, len) {
            Some(e) => Err(e),
            None => match madt_walk(b, off + len) {
                Err(e) => Err(e),
                Ok((l, i, o)) => Ok(
                    (
                        if (typ == 0 || typ == 9) && lapic_usable(lapic_at(b, off)) {
                            seq![lapic_at(b, off)] + l
                        } else {
                            l
                        },
                        if typ == 1 {
                            seq![ioapic_at(b, off)] + i
                        } else {
                            i
                        },
                        if typ == 2 && override_at(b, off).source as u32 != override_at(b, off).mapped_to {
                            seq![override_at(b, off)] + o
                        } else {
                            o
                        },
                    ),
                ),
            },
        }
    }
}

/// A local APIC read from the entry at `e`: the entry's type, length, processor
/// UID and APIC id are its bytes 0 to 3 (the MADT layout).
pub open spec fn lapic_read_at(l: LocalApic, b: Seq<u8>, e: int) -> bool {
    &&& 0 <= e
    &&& e + 8 <= b.len()
    &&& l.typ == b[e]
    &&& l.length == b[e + 1]
    &&& l.processor_uid == b[e + 2]
    &&& l.id == b[e + 3]
}

/// An I/O APIC read from the entry at `e`: type, length, I/O APIC id and the
/// reserved byte are its bytes 0 to 3.
pub open spec fn ioapic_read_at(x: IoApic, b: Seq<u8>, e: int) -> bool {
    &&& 0 <= e
    &&& e + 12 <= b.len()
    &&& x.typ == b[e]
    &&& x.length == b[e + 1]
    &&& x.id == b[e + 2]
    &&& x.res0 == b[e + 3]
}

/// An interrupt source override read from the entry at `e`: type, length, bus
/// and source are its bytes 0 to 3.
pub open spec fn override_read_at(x: IntOverride, b: Seq<u8>, e: int) -> bool {
    &&& 0 <= e
    &&& e + 10 <= b.len()
    &&& x.typ == b[e]
    &&& x.length == b[e + 1]
    &&& x.bus == b[e + 2]
    &&& x.source == b[e + 3]
}

/// Every listed entry is read from the bytes of an entry at or behind `off` of
/// its own type (see `lemma_madt_entries_from_bytes`).
pub open spec fn madt_entries_read(
    b: Seq<u8>,
    off: int,
    l: Seq<LocalApic>,
    i: Seq<IoApic>,
    o: Seq<IntOverride>,
) -> bool {
    &&& forall|k: int| 0 <= k < l.len() ==> #[trigger] lapic_from_bytes(l[k], b, off)
    &&& forall|k: int| 0 <= k < i.len() ==> #[trigger] ioapic_from_bytes(i[k], b, off)
    &&& forall|k: int| 0 <= k < o.len() ==> #[trigger] override_from_bytes(o[k], b, off)
}

/// The local APIC is read from a local (type 0) or x2 (type 9) APIC entry at or
/// behind `off`.
pub open spec fn lapic_from_bytes(x: LocalApic, b: Seq<u8>, off: int) -> bool {
    exists|e: int| off <= e && #[trigger] lapic_read_at(x, b, e) && (b[e] == 0 || b[e] == 9)
}

/// The I/O APIC is read from a type 1 entry at or behind `off`.
pub open spec fn ioapic_from_bytes(x: IoApic, b: Seq<u8>, off: int) -> bool {
    exists|e: int| off <= e && #[trigger] ioapic_read_at(x, b, e) && b[e] == 1
}

/// The override is read from a type 2 entry at or behind `off`.
pub open spec fn override_from_bytes(x: IntOverride, b: Seq<u8>, off: int) -> bool {
    exists|e: int| off <= e && #[trigger] override_read_at(x, b, e) && b[e] == 2
}

/// Every entry a MADT walk from `off` lists is read from the bytes of an entry at
/// or behind `off` of its own type: a local APIC from a local (type 0) or x2
/// (type 9) APIC entry, with its processor UID at byte 2 and its APIC id at
/// byte 3; an I/O APIC from a type 1 entry, its id at byte 2; an override from
/// a type 2 entry, its bus and source at bytes 2 and 3.  A usable local APIC
/// entry right at `off` comes first.
pub proof fn lemma_madt_entries_from_bytes(b: Seq<u8>, off: int)
    ensures
        madt_walk(b, off) matches Ok((l, i, o)) ==> madt_entries_read(b, off, l, i, o),
        madt_walk(b, off) matches Ok((l, i, o)) ==> (0 <= off && off + 8 <= b.len() && off + b[off + 1]
            <= b.len() && b[off] == 0 && lapic_usable(lapic_at(b, off)) ==> l.len() > 0 && lapic_read_at(l[0], b, off)),
    decreases b.len() - off,
{
    if off < 0 || off + 2 > b.len() || off + b[off + 1] > b.len() {
        assert(madt_walk(b, off)->Ok_0.0.len() == 0);
        assert(madt_walk(b, off)->Ok_0.1.len() == 0);
        assert(madt_walk(b, off)->Ok_0.2.len() == 0);
    } else {
        let typ = b[off];
        let len = b[off + 1];
        if madt_entry_error(typ, len) is None {
            lemma_madt_entries_from_bytes(b, off + len);
            if madt_walk(b, off) is Ok {
                let l = madt_walk(b, off)->Ok_0.0;
                let i = madt_walk(b, off)->Ok_0.1;
                let o = madt_walk(b, off)->Ok_0.2;
                let l2 = madt_walk(b, off + len)->Ok_0.0;
                let i2 = madt_walk(b, off + len)->Ok_0.1;
                let o2 = madt_walk(b, off + len)->Ok_0.2;
                assert forall|k: int| 0 <= k < l.len() implies #[trigger] lapic_from_bytes(l[k], b, off) by {
                    if (typ == 0 || typ == 9) && lapic_usable(lapic_at(b, off)) {
                        if k == 0 {
                            assert(lapic_read_at(l[k], b, off));
                        } else {
                            assert(l[k] == l2[k - 1]);
                            assert(lapic_from_bytes(l2[k - 1], b, off + len));
                            let e = choose|e: int| off + len <= e && #[trigger] lapic_read_at(l2[k - 1], b, e) && (b[e]
                                == 0 || b[e] == 9);
                            assert(lapic_read_at(l[k], b, e));
                        }
                    } else {
                        assert(l[k] == l2[k]);
                        assert(lapic_from_bytes(l2[k], b, off + len));
                        let e = choose|e: int| off + len <= e && #[trigger] lapic_read_at(l2[k], b, e) && (b[e] == 0
                            || b[e] == 9);
                        assert(lapic_read_at(l[k], b, e));
                    }
                }
                assert forall|k: int| 0 <= k < i.len() implies #[trigger] ioapic_from_bytes(i[k], b, off) by {
                    if typ == 1 {
                        if k == 0 {
                            assert(ioapic_read_at(i[k], b, off));
                        } else {
                            assert(i[k] == i2[k - 1]);
                            assert(ioapic_from_bytes(i2[k - 1], b, off + len));
                            let e = choose|e: int| off + len <= e && #[trigger] ioapic_read_at(i2[k - 1], b, e) && b[e] == 1;
                            assert(ioapic_read_at(i[k], b, e));
                        }
                    } else {
                        assert(i[k] == i2[k]);
                        assert(ioapic_from_bytes(i2[k], b, off + len));
                        let e = choose|e: int| off + len <= e && #[trigger] ioapic_read_at(i2[k], b, e) && b[e] == 1;
                        assert(ioapic_read_at(i[k], b, e));
                    }
                }
                assert forall|k: int| 0 <= k < o.len() implies #[trigger] override_from_bytes(o[k], b, off) by {
                    if typ == 2 && override_at(b, off).source as u32 != override_at(b, off).mapped_to {
                        if k == 0 {
                            assert(override_read_at(o[k], b, off));
                        } else {
                            assert(o[k] == o2[k - 1]);
                            assert(override_from_bytes(o2[k - 1], b, off + len));
                            let e = choose|e: int| off + len <= e && #[trigger] override_read_at(o2[k - 1], b, e) && b[e]
                                == 2;
                            assert(override_read_at(o[k], b, e));
                        }
                    } else {
                        assert(o[k] == o2[k]);
                        assert(override_from_bytes(o2[k], b, off + len));
                        let e = choose|e: int| off + len <= e && #[trigger] override_read_at(o2[k], b, e) && b[e] == 2;
                        assert(override_read_at(o[k], b, e));
                    }
                }
                assert(madt_entries_read(b, off, l, i, o));
            }
        }
    }
}

/// The lists found so far followed by the outcome of the rest of a walk.
pub open spec fn madt_join(
    l: Seq<LocalApic>,
    i: Seq<IoApic>,
    o: Seq<IntOverride>,
    rest: Result<(Seq<LocalApic>, Seq<IoApic>, Seq<IntOverride>), AcpiError>,
) -> Result<(Seq<LocalApic>, Seq<IoApic>, Seq<IntOverride>), AcpiError> {
    match rest {
        Err(e) => Err(e),
        Ok((l2, i2, o2)) => Ok((l + l2, i + i2, o + o2)),
    }
}

/// Reads the MADT payload (the bytes behind the header): the local interrupt
/// controller address and flags are skipped, then the entries are read.
pub fn parse_madt(b: &[u8]) -> (r: Result<Madt, AcpiError>)
    ensures
        match madt_walk(b@, 8) {
            Err(e) => r == Err::<Madt, AcpiError>(e),
            Ok((l, i, o)) => r matches Ok(m) && m.lapics@ == l && m.ioapics@ == i && m.int_overrides@ == o,
        },
{
    let end = b.len();
    let mut lapics: Vec<LocalApic> = Vec::new();
    let mut ioapics: Vec<IoApic> = Vec::new();
    let mut overrides: Vec<IntOverride> = Vec::new();
    let mut ics: usize = 8;
    loop
        invariant
            end == b@.len(),
            ics >= 8,
            madt_join(lapics@, ioapics@, overrides@, madt_walk(b@, ics as int)) == madt_walk(b@, 8),
        decreases end - ics,
    {
        if ics > end || end - ics < 2 {
            proof {
                assert(lapics@ + Seq::<LocalApic>::empty() =~= lapics@);
                assert(ioapics@ + Seq::<IoApic>::empty() =~= ioapics@);
                assert(overrides@ + Seq::<IntOverride>::empty() =~= overrides@);
            }
            return Ok(Madt { lapics, ioapics, int_overrides: overrides });
        }
        let typ = b[ics];
        let len = b[ics + 1];
        if end - ics < len as usize {
            proof {
                assert(lapics@ + Seq::<LocalApic>::empty() =~= lapics@);
                assert(ioapics@ + Seq::<IoApic>::empty() =~= ioapics@);
                assert(overrides@ + Seq::<IntOverride>::empty() =~= overrides@);
            }
            return Ok(Madt { lapics, ioapics, int_overrides: overrides });
        }
        if len < 2 {
            return Err(AcpiError::BadEntryLength);
        }
        let ghost before_l = lapics@;
        let ghost before_i = ioapics@;
        let ghost before_o = overrides@;
        if typ == 0 {
            if len != 8 {
                return Err(AcpiError::InvalidLapicEntry);
            }
            let lapic = read_lapic(b, ics);
            if (lapic.flags & 1) != 0 || (lapic.flags & 2) != 0 {
                lapics.push(lapic);
            }
        } else if typ == 1 {
            if len != 12 {
                return Err(AcpiError::InvalidIoApicEntry);
            }
            ioapics.push(read_ioapic(b, ics));
        } else if typ == 2 {
            if len != 10 {
                return Err(AcpiError::InvalidOverrideEntry);
            }
            let ov = read_override(b, ics);
            if ov.source as u32 != ov.mapped_to {
                overrides.push(ov);
            }
        } else if typ == 9 {
            if len != 16 {
                return Err(AcpiError::InvalidX2ApicEntry);
            }
            let lapic = read_lapic(b, ics);
            if (lapic.flags & 1) != 0 || (lapic.flags & 2) != 0 {
                lapics.push(lapic);
            }
        }
        proof {
            let rest = madt_walk(b@, ics + len);
            match rest {
                Err(e) => {},
                Ok((l2, i2, o2)) => {
                    if (typ == 0 || typ == 9) && lapic_usable(lapic_at(b@, ics as int)) {
                        assert(before_l + (seq![lapic_at(b@, ics as int)] + l2) =~= lapics@ + l2);
                    } else {
                        assert(before_l =~= lapics@);
                    }
                    if typ == 1 {
                        assert(before_i + (seq![ioapic_at(b@, ics as int)] + i2) =~= ioapics@ + i2);
                    }
                    if typ == 2 && override_at(b@, ics as int).source as u32 != override_at(b@, ics as int).mapped_to {
                        assert(before_o + (seq![override_at(b@, ics as int)] + o2) =~= overrides@ + o2);
                    }
                },
            }
        }
        ics = ics + len as usize;
    }
}

/// The outcome of looking for the next usable local APIC from `off` on: the APIC
/// and the offset behind its entry, `None` when the entries end first, or the
/// error of an entry that is malformed.  Only local and x2 APIC entries are
/// checked for their length.
pub open spec fn lapic_next(b: Seq<u8>, off: int) -> Result<Option<(LocalApic, int)>, AcpiError>
    decreases b.len() - off,
{
    if off < 0 || off + 2 > b.len() || off + b[off + 1] > b.len() {
        Ok(None)
    } else {
        let typ = b[off];
        let len = b[off + 1];
        if len < 2 {
            Err(AcpiError::BadEntryLength)
        } else if typ == 0 && len != 8 {
            Err(AcpiError::InvalidLapicEntry)
        } else if typ == 9 && len != 16 {
            Err(AcpiError::InvalidX2ApicEntry)
        } else if (typ == 0 || typ == 9) && lapic_usable(lapic_at(b, off)) {
            Ok(Some((lapic_at(b, off), off + len)))
        } else {
            lapic_next(b, off + len)
        }
    }
}

/// While a MADT payload parses from `off` on, the local APIC iterator follows
/// the list `parse_madt` collects: a step from `off` yields its first APIC and
/// moves to where the rest of the list starts, and it ends exactly when the
/// list is empty.
pub proof fn lemma_lapic_iter_follows_madt(b: Seq<u8>, off: int)
    requires
        madt_walk(b, off) is Ok,
    ensures
        madt_walk(b, off) matches Ok((l, i, o)) && match lapic_next(b, off) {
            Err(e) => false,
            Ok(None) => l.len() == 0,
            Ok(Some((a, next))) => {
                &&& l.len() > 0
                &&& a == l[0]
                &&& off < next
                &&& madt_walk(b, next) matches Ok((l2, i2, o2)) && l2 == l.drop_first()
            },
        },
    decreases b.len() - off,
{
    if off < 0 || off + 2 > b.len() || off + b[off + 1] > b.len() {
    } else {
        let typ = b[off];
        let len = b[off + 1];
        if (typ == 0 || typ == 9) && lapic_usable(lapic_at(b, off)) {
            let l2 = madt_walk(b, off + len)->Ok_0.0;
            assert((seq![lapic_at(b, off)] + l2).drop_first() =~= l2);
        } else {
            lemma_lapic_iter_follows_madt(b, off + len);
        }
    }
}

/// Walks the MADT payload for the usable local APICs, one at a time.
pub struct LapicIter {
    table: Vec<u8>,
    current: usize,
}

impl LapicIter {
    /// The MADT payload the iterator walks.
    pub closed spec fn table(&self) -> Seq<u8> {
        self.table@
    }

    /// The offset of the next entry.
    pub closed spec fn current(&self) -> int {
        self.current as int
    }

    /// Walks the MADT payload `madt` (the bytes behind the header), from its first
    /// entry behind the local interrupt controller address and flags.
    pub fn new(madt: Vec<u8>) -> (r: LapicIter)
        ensures
            r.table() == madt@,
            r.current() == 8,
    {
        LapicIter { table: madt, current: 8 }
    }

    /// The next usable local APIC, `None` when the entries end, or the error of a
    /// malformed entry on the way.
    pub fn next(&mut self) -> (r: Result<Option<LocalApic>, AcpiError>)
        ensures
            final(self).table() == old(self).table(),
            match lapic_next(old(self).table(), old(self).current()) {
                Err(e) => r == Err::<Option<LocalApic>, AcpiError>(e) && final(self).current() == old(self).current(),
                Ok(None) => r == Ok::<Option<LocalApic>, AcpiError>(None) && final(self).current() == old(self).current(),
                Ok(Some((l, off))) => r == Ok::<Option<LocalApic>, AcpiError>(Some(l)) && final(self).current() == off,
            },
    {
        let end = self.table.len();
        let mut cur = self.current;
        loop
            invariant
                end == self.table@.len(),
                self.table@ == old(self).table(),
                self.current == old(self).current,
                lapic_next(self.table@, cur as int) == lapic_next(old(self).table(), old(self).current()),
            decreases end - cur,
        {
            if cur > end || end - cur < 2 {
                return Ok(None);
            }
            let typ = self.table[cur];
            let len = self.table[cur + 1];
            if end - cur < len as usize {
                return Ok(None);
            }
            if len < 2 {
                return Err(AcpiError::BadEntryLength);
            }
            if typ == 0 && len != 8 {
                return Err(AcpiError::InvalidLapicEntry);
            }
            if typ == 9 && len != 16 {
                return Err(AcpiError::InvalidX2ApicEntry);
            }
            if typ == 0 || typ == 9 {
                let lapic = read_lapic(self.table.as_slice(), cur);
                if (lapic.flags & 1) != 0 || (lapic.flags & 2) != 0 {
                    self.current = cur + len as usize;
                    return Ok(Some(lapic));
                }
            }
            cur = cur + len as usize;
        }
    }
}

/// A memory range of a proximity domain: from `start` to `end`, inclusive.
#[derive(Debug, Clone, Copy, PartialEq, Eq, Structural)]
pub struct MemoryAffinity {
    pub domain: u32,
    pub start: u64,
    pub end: u64,
}

/// The error an SRAT entry of type `typ` and length `len` gives, if any.
pub open spec fn srat_entry_error(typ: u8, len: u8) -> Option<AcpiError> {
    if len < 2 {
        Some(AcpiError::BadEntryLength)
    } else if typ == 0 && len != 16 {
        Some(AcpiError::InvalidApicAffinity)
    } else if typ == 1 && len != 40 {
        Some(AcpiError::InvalidMemoryAffinity)
    } else if typ == 2 && len != 24 {
        Some(AcpiError::InvalidX2ApicAffinity)
    } else {
        None
    }
}

/// The proximity domain of a local APIC affinity entry: its low byte at offset
/// 2, its high bytes at offset 9.
pub open spec fn apic_domain_at(b: Seq<u8>, off: int) -> int {
    b[off + 2] + 0x100 * b[off + 9] + 0x1_0000 * b[off + 10] + 0x100_0000 * b[off + 11]
}

/// The affinities the SRAT payload `b` gives from `off` on, added to the APIC
/// domains `apics` and the memory ranges `mems` found before: enabled local and
/// x2 APIC entries give their APIC a domain (a second one for an APIC is an
/// error), enabled memory entries of non-zero size add their range.
pub open spec fn srat_walk(b: Seq<u8>, off: int, apics: Map<u32, u32>, mems: Seq<MemoryAffinity>) -> Result<(Map<u32, u32>, Seq<MemoryAffinity>), AcpiError>
    decreases b.len() - off,
{
    if off < 0 || off + 2 > b.len() || off + b[off + 1] > b.len() {
        Ok((apics, mems))
    } else {
        let typ = b[off];
        let len = b[off + 1];
        match srat_entry_error(typ, len) {
            Some(e) => Err(e),
            None => if typ == 0 {
                let apic = b[off + 3] as u32;
                let domain = apic_domain_at(b, off) as u32;
                let flags = le_u32(b, off + 4) as u32;
                if (flags & 1u32) != 0 {
                    if apics.contains_key(apic) {
                        Err(AcpiError::DuplicateApicAffinity)
                    } else {
                        srat_walk(b, off + len, apics.insert(apic, domain), mems)
                    }
                } else {
                    srat_walk(b, off + len, apics, mems)
                }
            } else if typ == 1 {
                let domain = le_u32(b, off + 2) as u32;
                let base = le_u64(b, off + 8);
                let size = le_u64(b, off + 16);
                let flags = le_u32(b, off + 28) as u32;
                if size > 0 && (flags & 1u32) != 0 {
                    if base + size - 1 > u64::MAX {
                        Err(AcpiError::MemoryRangeOverflow)
                    } else {
                        srat_walk(
                            b,
                            off + len,
                            apics,
                            mems.push(MemoryAffinity { domain, start: base as u64, end: (base + size - 1) as u64 }),
                        )
                    }
                } else {
                    srat_walk(b, off + len, apics, mems)
                }
            } else if typ == 2 {
                let domain = le_u32(b, off + 4) as u32;
                let apic = le_u32(b, off + 8) as u32;
                let flags = le_u32(b, off + 12) as u32;
                if (flags & 1u32) != 0 {
                    if apics.contains_key(apic) {
                        Err(AcpiError::DuplicateApicAffinity)
                    } else {
                        srat_walk(b, off + len, apics.insert(apic, domain), mems)
                    }
                } else {
                    srat_walk(b, off + len, apics, mems)
                }
            } else {
                srat_walk(b, off + len, apics, mems)
            },
        }
    }
}

/// A memory range read from the memory affinity entry (type 1) at `e`: the
/// entry is enabled and of non-zero size; the domain is the 32-bit number at
/// byte 2, the range runs from the base at byte 8 over the size at byte 16.
pub open spec fn memory_read_at(m: MemoryAffinity, b: Seq<u8>, e: int) -> bool {
    &&& 0 <= e
    &&& e + 40 <= b.len()
    &&& b[e] == 1
    &&& (le_u32(b, e + 28) as u32) & 1u32 != 0
    &&& le_u64(b, e + 16) > 0
    &&& m.domain == le_u32(b, e + 2)
    &&& m.start == le_u64(b, e + 8)
    &&& m.end == le_u64(b, e + 8) + le_u64(b, e + 16) - 1
}

/// The memory range is read from a memory affinity entry at or behind `off`.
pub open spec fn memory_from_bytes(m: MemoryAffinity, b: Seq<u8>, off: int) -> bool {
    exists|e: int| off <= e && #[trigger] memory_read_at(m, b, e)
}

/// APIC `apic` gets domain `d` from the entry at `e`: an enabled local APIC
/// affinity entry (type 0) with the APIC id at byte 3 and the domain's low byte
/// at byte 2 and high bytes at 9 to 11, or an enabled x2 APIC affinity entry
/// (type 2) with the domain at byte 4 and the APIC id at byte 8.
pub open spec fn apic_affinity_read_at(apic: u32, d: u32, b: Seq<u8>, e: int) -> bool {
    &&& 0 <= e
    &&& e + 2 <= b.len()
    &&& {
        ||| b[e] == 0 && e + 16 <= b.len() && (le_u32(b, e + 4) as u32) & 1u32 != 0 && apic == b[e + 3] && d
            == b[e + 2] + 0x100 * b[e + 9] + 0x1_0000 * b[e + 10] + 0x100_0000 * b[e + 11]
        ||| b[e] == 2 && e + 24 <= b.len() && (le_u32(b, e + 12) as u32) & 1u32 != 0 && apic == le_u32(b, e + 8)
            && d == le_u32(b, e + 4)
    }
}

/// The APIC gets the domain from an affinity entry at or behind `off`.
pub open spec fn apic_affinity_from_bytes(apic: u32, d: u32, b: Seq<u8>, off: int) -> bool {
    exists|e: int| off <= e && #[trigger] apic_affinity_read_at(apic, d, b, e)
}

/// What an SRAT walk from `off` adds is read from the bytes of entries at or
/// behind `off`: the memory ranges found before stay, in front, and each range
/// added comes from an enabled memory affinity entry of non-zero size; the APIC
/// domains found before stay, and each APIC added gets its domain from an
/// enabled local or x2 APIC affinity entry.
pub proof fn lemma_srat_entries_from_bytes(b: Seq<u8>, off: int, apics: Map<u32, u32>, mems: Seq<MemoryAffinity>)
    ensures
        srat_walk(b, off, apics, mems) matches Ok((a2, m2)) ==> {
            &&& m2.len() >= mems.len()
            &&& m2.take(mems.len() as int) == mems
            &&& forall|k: int| mems.len() <= k < m2.len() ==> #[trigger] memory_from_bytes(m2[k], b, off)
            &&& forall|x: u32| #[trigger] apics.contains_key(x) ==> a2.contains_key(x) && a2[x] == apics[x]
            &&& forall|x: u32|
                #[trigger] a2.contains_key(x) && !apics.contains_key(x) ==> apic_affinity_from_bytes(x, a2[x], b, off)
        },
    decreases b.len() - off,
{
    if off < 0 || off + 2 > b.len() || off + b[off + 1] > b.len() {
        assert(mems.take(mems.len() as int) =~= mems);
    } else {
        let typ = b[off];
        let len = b[off + 1];
        if srat_entry_error(typ, len) is None {
            let next = off + len;
            if typ == 0 {
                let apic = b[off + 3] as u32;
                let domain = apic_domain_at(b, off) as u32;
                let flags = le_u32(b, off + 4) as u32;
                if (flags & 1u32) != 0 && !apics.contains_key(apic) {
                    let a1 = apics.insert(apic, domain);
                    lemma_srat_entries_from_bytes(b, next, a1, mems);
                    if srat_walk(b, off, apics, mems) is Ok {
                        let (a2, m2) = srat_walk(b, next, a1, mems)->Ok_0;
                        assert forall|k: int| mems.len() <= k < m2.len() implies #[trigger] memory_from_bytes(
                            m2[k],
                            b,
                            off,
                        ) by {
                            assert(memory_from_bytes(m2[k], b, next));
                            let e = choose|e: int| next <= e && #[trigger] memory_read_at(m2[k], b, e);
                            assert(memory_read_at(m2[k], b, e));
                        }
                        assert forall|x: u32| #[trigger] a2.contains_key(x) && !apics.contains_key(x) implies apic_affinity_from_bytes(
                            x,
                            a2[x],
                            b,
                            off,
                        ) by {
                            if x == apic {
                                assert(a1.contains_key(x));
                                assert(a2[x] == domain);
                                assert(apic_affinity_read_at(x, a2[x], b, off));
                            } else {
                                assert(!a1.contains_key(x));
                                assert(apic_affinity_from_bytes(x, a2[x], b, next));
                                let e = choose|e: int| next <= e && #[trigger] apic_affinity_read_at(x, a2[x], b, e);
                                assert(apic_affinity_read_at(x, a2[x], b, e));
                            }
                        }
                        assert forall|x: u32| #[trigger] apics.contains_key(x) implies a2.contains_key(x) && a2[x]
                            == apics[x] by {
                            assert(a1.contains_key(x));
                        }
                    }
                } else {
                    lemma_srat_entries_from_bytes(b, next, apics, mems);
                    lemma_srat_shift(b, off, next, apics, mems);
                }
            } else if typ == 1 {
                let domain = le_u32(b, off + 2) as u32;
                let base = le_u64(b, off + 8);
                let size = le_u64(b, off + 16);
                let flags = le_u32(b, off + 28) as u32;
                if size > 0 && (flags & 1u32) != 0 && base + size - 1 <= u64::MAX {
                    let m = MemoryAffinity { domain, start: base as u64, end: (base + size - 1) as u64 };
                    let m1 = mems.push(m);
                    lemma_srat_entries_from_bytes(b, next, apics, m1);
                    if srat_walk(b, off, apics, mems) is Ok {
                        let (a2, m2) = srat_walk(b, next, apics, m1)->Ok_0;
                        assert(m2.take(m1.len() as int) == m1);
                        assert(m2.take(mems.len() as int) =~= m1.take(mems.len() as int));
                        assert(m1.take(mems.len() as int) =~= mems);
                        assert forall|k: int| mems.len() <= k < m2.len() implies #[trigger] memory_from_bytes(
                            m2[k],
                            b,
                            off,
                        ) by {
                            if k == mems.len() {
                                assert(m2[k] == m2.take(m1.len() as int)[k]);
                                assert(m2[k] == m);
                                assert(memory_read_at(m2[k], b, off));
                            } else {
                                assert(memory_from_bytes(m2[k], b, next));
                                let e = choose|e: int| next <= e && #[trigger] memory_read_at(m2[k], b, e);
                                assert(memory_read_at(m2[k], b, e));
                            }
                        }
                        assert forall|x: u32| #[trigger] a2.contains_key(x) && !apics.contains_key(x) implies apic_affinity_from_bytes(
                            x,
                            a2[x],
                            b,
                            off,
                        ) by {
                            assert(apic_affinity_from_bytes(x, a2[x], b, next));
                            let e = choose|e: int| next <= e && #[trigger] apic_affinity_read_at(x, a2[x], b, e);
                            assert(apic_affinity_read_at(x, a2[x], b, e));
                        }
                    }
                } else {
                    lemma_srat_entries_from_bytes(b, next, apics, mems);
                    lemma_srat_shift(b, off, next, apics, mems);
                }
            } else if typ == 2 {
                let domain = le_u32(b, off + 4) as u32;
                let apic = le_u32(b, off + 8) as u32;
                let flags = le_u32(b, off + 12) as u32;
                if (flags & 1u32) != 0 && !apics.contains_key(apic) {
                    let a1 = apics.insert(apic, domain);
                    lemma_srat_entries_from_bytes(b, next, a1, mems);
                    if srat_walk(b, off, apics, mems) is Ok {
                        let (a2, m2) = srat_walk(b, next, a1, mems)->Ok_0;
                        assert forall|k: int| mems.len() <= k < m2.len() implies #[trigger] memory_from_bytes(
                            m2[k],
                            b,
                            off,
                        ) by {
                            assert(memory_from_bytes(m2[k], b, next));
                            let e = choose|e: int| next <= e && #[trigger] memory_read_at(m2[k], b, e);
                            assert(memory_read_at(m2[k], b, e));
                        }
                        assert forall|x: u32| #[trigger] a2.contains_key(x) && !apics.contains_key(x) implies apic_affinity_from_bytes(
                            x,
                            a2[x],
                            b,
                            off,
                        ) by {
                            if x == apic {
                                assert(a1.contains_key(x));
                                assert(a2[x] == domain);
                                assert(apic_affinity_read_at(x, a2[x], b, off));
                            } else {
                                assert(!a1.contains_key(x));
                                assert(apic_affinity_from_bytes(x, a2[x], b, next));
                                let e = choose|e: int| next <= e && #[trigger] apic_affinity_read_at(x, a2[x], b, e);
                                assert(apic_affinity_read_at(x, a2[x], b, e));
                            }
                        }
                        assert forall|x: u32| #[trigger] apics.contains_key(x) implies a2.contains_key(x) && a2[x]
                            == apics[x] by {
                            assert(a1.contains_key(x));
                        }
                    }
                } else {
                    lemma_srat_entries_from_bytes(b, next, apics, mems);
                    lemma_srat_shift(b, off, next, apics, mems);
                }
            } else {
                lemma_srat_entries_from_bytes(b, next, apics, mems);
                lemma_srat_shift(b, off, next, apics, mems);
            }
        }
    }
}

/// What a walk from a later offset reads, it reads at or behind an earlier one.
proof fn lemma_srat_shift(b: Seq<u8>, off: int, next: int, apics: Map<u32, u32>, mems: Seq<MemoryAffinity>)
    requires
        off <= next,
        srat_walk(b, next, apics, mems) matches Ok((a2, m2)) ==> {
            &&& forall|k: int| mems.len() <= k < m2.len() ==> #[trigger] memory_from_bytes(m2[k], b, next)
            &&& forall|x: u32|
                #[trigger] a2.contains_key(x) && !apics.contains_key(x) ==> apic_affinity_from_bytes(x, a2[x], b, next)
        },
    ensures
        srat_walk(b, next, apics, mems) matches Ok((a2, m2)) ==> {
            &&& forall|k: int| mems.len() <= k < m2.len() ==> #[trigger] memory_from_bytes(m2[k], b, off)
            &&& forall|x: u32|
                #[trigger] a2.contains_key(x) && !apics.contains_key(x) ==> apic_affinity_from_bytes(x, a2[x], b, off)
        },
{
    if srat_walk(b, next, apics, mems) is Ok {
        let (a2, m2) = srat_walk(b, next, apics, mems)->Ok_0;
        assert forall|k: int| mems.len() <= k < m2.len() implies #[trigger] memory_from_bytes(m2[k], b, off) by {
            assert(memory_from_bytes(m2[k], b, next));
            let e = choose|e: int| next <= e && #[trigger] memory_read_at(m2[k], b, e);
            assert(memory_read_at(m2[k], b, e));
        }
        assert forall|x: u32| #[trigger] a2.contains_key(x) && !apics.contains_key(x) implies apic_affinity_from_bytes(
            x,
            a2[x],
            b,
            off,
        ) by {
            assert(apic_affinity_from_bytes(x, a2[x], b, next));
            let e = choose|e: int| next <= e && #[trigger] apic_affinity_read_at(x, a2[x], b, e);
            assert(apic_affinity_read_at(x, a2[x], b, e));
        }
    }
}

/// The affinities an SRAT gives: the proximity domain of each APIC, and the
/// memory ranges of the domains in table order.
pub struct Srat {
    pub apic_affinities: BTreeMap<u32, u32>,
    pub memory_affinities: Vec<MemoryAffinity>,
}

/// Reads the SRAT payload (the bytes behind the header): 12 reserved bytes are
/// skipped, then the entries are read.
pub fn parse_srat(b: &[u8]) -> (r: Result<Srat, AcpiError>)
    ensures
        match srat_walk(b@, 12, Map::empty(), Seq::empty()) {
            Err(e) => r == Err::<Srat, AcpiError>(e),
            Ok((apics, mems)) => r matches Ok(t) && t.apic_affinities@ == apics && t.memory_affinities@ == mems,
        },
{
    proof {
        lemma_u32_keys_ordered();
    }
    let end = b.len();
    let mut apics: BTreeMap<u32, u32> = BTreeMap::new();
    let mut mems: Vec<MemoryAffinity> = Vec::new();
    let mut sra: usize = 12;
    loop
        invariant
            end == b@.len(),
            sra >= 12,
            srat_walk(b@, sra as int, apics@, mems@) == srat_walk(b@, 12, Map::empty(), Seq::empty()),
        decreases end - sra,
    {
        if sra > end || end - sra < 2 {
            return Ok(Srat { apic_affinities: apics, memory_affinities: mems });
        }
        let typ = b[sra];
        let len = b[sra + 1];
        if end - sra < len as usize {
            return Ok(Srat { apic_affinities: apics, memory_affinities: mems });
        }
        if len < 2 {
            return Err(AcpiError::BadEntryLength);
        }
        if typ == 0 {
            if len != 16 {
                return Err(AcpiError::InvalidApicAffinity);
            }
            let domain_low = b[sra + 2];
            let apic_id = b[sra + 3];
            let flags = read_u32(b, sra + 4);
            let domain = (domain_low as u32) + 0x100 * (b[sra + 9] as u32) + 0x1_0000 * (b[sra + 10] as u32)
                + 0x100_0000 * (b[sra + 11] as u32);
            if (flags & 1) != 0 {
                if apics.insert(apic_id as u32, domain).is_some() {
                    return Err(AcpiError::DuplicateApicAffinity);
                }
            }
        } else if typ == 1 {
            if len != 40 {
                return Err(AcpiError::InvalidMemoryAffinity);
            }
            let domain = read_u32(b, sra + 2);
            let base = read_u64(b, sra + 8);
            let size = read_u64(b, sra + 16);
            let flags = read_u32(b, sra + 28);
            if size > 0 && (flags & 1) != 0 {
                if base > u64::MAX - (size - 1) {
                    return Err(AcpiError::MemoryRangeOverflow);
                }
                mems.push(MemoryAffinity { domain, start: base, end: base + (size - 1) });
            }
        } else if typ == 2 {
            if len != 24 {
                return Err(AcpiError::InvalidX2ApicAffinity);
            }
            let domain = read_u32(b, sra + 4);
            let apic_id = read_u32(b, sra + 8);
            let flags = read_u32(b, sra + 12);
            if (flags & 1) != 0 {
                if apics.insert(apic_id, domain).is_some() {
                    return Err(AcpiError::DuplicateApicAffinity);
                }
            }
        }
        sra = sra + len as usize;
    }
}

/// The order on `u32` keys is the one the map's specification assumes.
proof fn lemma_u32_keys_ordered()
    ensures
        vstd::laws_cmp::obeys_cmp::<u32>(),
{
    broadcast use vstd::laws_cmp::group_laws_cmp;

}

/// The tables the kernel found in the root table.
pub struct AcpiTables {
    pub madt: Option<Madt>,
    pub srat: Option<Srat>,
}

impl AcpiTables {
    /// No table found yet.
    pub fn new() -> (r: AcpiTables)
        ensures
            r.madt is None,
            r.srat is None,
    {
        AcpiTables { madt: None, srat: None }
    }

    /// Records the MADT; a second one is an error and leaves the first.
    pub fn add_madt(&mut self, madt: Madt) -> (r: Result<(), AcpiError>)
        ensures
            old(self).madt is Some ==> r == Err::<(), AcpiError>(AcpiError::DuplicateTable)
                && final(self).madt == old(self).madt,
            old(self).madt is None ==> r is Ok && final(self).madt == Some(madt),
            final(self).srat == old(self).srat,
    {
        if self.madt.is_some() {
            return Err(AcpiError::DuplicateTable);
        }
        self.madt = Some(madt);
        Ok(())
    }

    /// Records the SRAT; a second one is an error and leaves the first.
    pub fn add_srat(&mut self, srat: Srat) -> (r: Result<(), AcpiError>)
        ensures
            old(self).srat is Some ==> r == Err::<(), AcpiError>(AcpiError::DuplicateTable)
                && final(self).srat == old(self).srat,
            old(self).srat is None ==> r is Ok && final(self).srat == Some(srat),
            final(self).madt == old(self).madt,
    {
        if self.srat.is_some() {
            return Err(AcpiError::DuplicateTable);
        }
        self.srat = Some(srat);
        Ok(())
    }
}

} // verus!

use perf_kernel::acpi::{
    check_rsdp, parse_header, parse_madt, parse_srat, read_header, rsdp_candidates, rsdt_entries,
    AcpiError, AcpiTables, LapicIter, LocalApic, MemoryAffinity, NonMaskableInts, SIG_APIC, SIG_RSDT,
};
use perf_kernel::bytes::{checksum, read_u16, read_u32, read_u64};

/// Sets byte `at` so that the first `len` bytes of `b` sum to zero.
fn fix_checksum(b: &mut [u8], len: usize, at: usize) {
    b[at] = 0;
    let sum = b[..len].iter().fold(0u8, |a, x| a.wrapping_add(*x));
    b[at] = 0u8.wrapping_sub(sum);
}

fn table(signature: &[u8; 4], payload: &[u8]) -> Vec<u8> {
    let mut t = vec![0u8; 36];
    t[..4].copy_from_slice(signature);
    t[4..8].copy_from_slice(&((36 + payload.len()) as u32).to_le_bytes());
    t[8] = 1;
    t.extend_from_slice(payload);
    let len = t.len();
    fix_checksum(&mut t, len, 9);
    t
}

fn madt_payload(entries: &[&[u8]]) -> Vec<u8> {
    let mut p = vec![0u8; 8];
    p[..4].copy_from_slice(&0xfee0_0000u32.to_le_bytes());
    for e in entries {
        p.extend_from_slice(e);
    }
    p
}

#[test]
fn byte_readers() {
    let b = [1u8, 2, 3, 4, 5, 6, 7, 8, 9];
    assert_eq!(read_u16(&b, 1), 0x0302);
    assert_eq!(read_u32(&b, 0), 0x0403_0201);
    assert_eq!(read_u64(&b, 1), 0x0908_0706_0504_0302);
    assert_eq!(checksum(&[0x10, 0xf0, 0x01]), 1);
    assert_eq!(checksum(&[]), 0);
}

#[test]
fn header_parsing() {
    let t = table(b"RSDT", &[1, 0, 0, 0, 2, 0, 0, 0]);
    let h = read_header(&t);
    assert_eq!(h.signature, SIG_RSDT);
    assert_eq!(h.length, 44);
    assert_eq!(h.revision, 1);
    let (h2, len) = parse_header(&t).unwrap();
    assert_eq!(h2, h);
    assert_eq!(len, 8);
    let mut bad = t.clone();
    bad[20] = bad[20].wrapping_add(3);
    assert_eq!(parse_header(&bad), Err(AcpiError::BadChecksum(3)));
    let mut short = t.clone();
    short[4] = 10;
    assert_eq!(parse_header(&short), Err(AcpiError::TableTooShort));
}

#[test]
fn root_table_entries() {
    let t = table(b"RSDT", &[0x00, 0x10, 0, 0, 0x00, 0x20, 0, 0]);
    let (h, _) = parse_header(&t).unwrap();
    assert_eq!(rsdt_entries(&h, &t[36..]), Ok(vec![0x1000, 0x2000]));
    assert_eq!(rsdt_entries(&h, &t[36..43]), Err(AcpiError::RsdtSize));
    let other = table(b"APIC", &[]);
    let (h, _) = parse_header(&other).unwrap();
    assert_eq!(h.signature, SIG_APIC);
    assert_eq!(rsdt_entries(&h, &[]), Err(AcpiError::RsdtSignature));
}

#[test]
fn root_pointer() {
    let mut b = vec![0u8; 36];
    b[..8].copy_from_slice(b"RSD PTR ");
    b[16..20].copy_from_slice(&0x7fe_1000u32.to_le_bytes());
    fix_checksum(&mut b, 20, 8);
    let r = check_rsdp(&b).unwrap();
    assert_eq!(r.rsdt_addr, 0x7fe_1000);
    assert_eq!(r.revision, 0);
    b[15] = 2;
    fix_checksum(&mut b, 20, 8);
    assert!(check_rsdp(&b).is_some() == (checksum(&b[..36]) == 0));
    fix_checksum(&mut b, 36, 30);
    assert!(check_rsdp(&b).is_some());
    b[0] = b'X';
    assert!(check_rsdp(&b).is_none());
}

#[test]
fn rsdp_search_addresses() {
    let c = rsdp_candidates(0x9fc0);
    assert_eq!(c[0], 0x9fc0);
    assert_eq!(c[1], 0x9fd0);
    // The last candidates leave room for the whole 20-byte pointer.
    assert_eq!(c[62], 0x9fc0 + 62 * 16);
    assert_eq!(c[63], 0xe0000);
    assert_eq!(*c.last().unwrap(), 0xfffe0);
    assert_eq!(c.len(), 63 + 0x1fff);
    let d = rsdp_candidates(0x9fc1);
    assert_eq!(d[0], 0x9fd0);
    assert_eq!(d.len(), 62 + 0x1fff);
}

#[test]
fn madt_entries() {
    let lapic0: [u8; 8] = [0, 8, 0, 0, 1, 0, 0, 0];
    let lapic_disabled: [u8; 8] = [0, 8, 1, 1, 0, 0, 0, 0];
    let lapic2: [u8; 8] = [0, 8, 2, 2, 2, 0, 0, 0];
    let ioapic: [u8; 12] = [1, 12, 7, 0, 0, 0, 0xc0, 0xfe, 0, 0, 0, 0];
    let ov_same: [u8; 10] = [2, 10, 0, 9, 9, 0, 0, 0, 0, 0];
    let ov: [u8; 10] = [2, 10, 0, 0, 2, 0, 0, 0, 5, 0];
    let nmi: [u8; 6] = [4, 6, 0xff, 5, 0, 1];
    let p = madt_payload(&[&lapic0, &lapic_disabled, &ioapic, &ov_same, &ov, &nmi, &lapic2]);
    let m = parse_madt(&p).unwrap();
    assert_eq!(m.lapics.len(), 2);
    assert_eq!(m.lapics[0].id, 0);
    assert_eq!(m.lapics[1].id, 2);
    assert_eq!(m.ioapics.len(), 1);
    assert_eq!(m.ioapics[0].address, 0xfec0_0000);
    assert_eq!(m.int_overrides.len(), 1);
    assert_eq!(m.int_overrides[0].mapped_to, 2);
    assert_eq!(m.int_overrides[0].flags, 5);
    let mut it = LapicIter::new(p.clone());
    assert_eq!(it.next(), Ok(Some(LocalApic { typ: 0, length: 8, processor_uid: 0, id: 0, flags: 1 })));
    assert_eq!(it.next().unwrap().unwrap().id, 2);
    assert_eq!(it.next(), Ok(None));
}

#[test]
fn madt_errors() {
    let bad_lapic: [u8; 6] = [0, 6, 0, 0, 1, 0];
    assert!(matches!(parse_madt(&madt_payload(&[&bad_lapic])), Err(AcpiError::InvalidLapicEntry)));
    let bad_io: [u8; 8] = [1, 8, 0, 0, 0, 0, 0, 0];
    assert!(matches!(parse_madt(&madt_payload(&[&bad_io])), Err(AcpiError::InvalidIoApicEntry)));
    let bad_ov: [u8; 8] = [2, 8, 0, 0, 0, 0, 0, 0];
    assert!(matches!(parse_madt(&madt_payload(&[&bad_ov])), Err(AcpiError::InvalidOverrideEntry)));
    let bad_x2: [u8; 8] = [9, 8, 0, 0, 0, 0, 0, 0];
    assert!(matches!(parse_madt(&madt_payload(&[&bad_x2])), Err(AcpiError::InvalidX2ApicEntry)));
    let zero_len: [u8; 2] = [5, 0];
    assert!(matches!(parse_madt(&madt_payload(&[&zero_len])), Err(AcpiError::BadEntryLength)));
    let mut it = LapicIter::new(madt_payload(&[&zero_len]));
    assert_eq!(it.next(), Err(AcpiError::BadEntryLength));
    // A truncated entry ends the walk.
    let truncated: [u8; 4] = [0, 8, 0, 0];
    let m = parse_madt(&madt_payload(&[&truncated])).unwrap();
    assert!(m.lapics.is_empty());
}

#[test]
fn nmi_entry() {
    let b = [4u8, 6, 0x05, 0x00, 0x01, 0, 0, 0];
    let n = NonMaskableInts::from_bytes(&b, 0);
    assert_eq!(n, NonMaskableInts { typ: 4, length: 6, flags: 5, int_num: 1 });
}

fn srat_payload(entries: &[&[u8]]) -> Vec<u8> {
    let mut p = vec![1u8, 0, 0, 0, 0, 0, 0, 0, 0, 0, 0, 0];
    for e in entries {
        p.extend_from_slice(e);
    }
    p
}

fn apic_affinity(domain: u8, apic: u8, enabled: bool) -> Vec<u8> {
    let mut e = vec![0u8; 16];
    e[0] = 0;
    e[1] = 16;
    e[2] = domain;
    e[3] = apic;
    e[4] = enabled as u8;
    e[9] = 1;
    e
}

fn memory_affinity(domain: u32, base: u64, size: u64) -> Vec<u8> {
    let mut e = vec![0u8; 40];
    e[0] = 1;
    e[1] = 40;
    e[2..6].copy_from_slice(&domain.to_le_bytes());
    e[8..16].copy_from_slice(&base.to_le_bytes());
    e[16..24].copy_from_slice(&size.to_le_bytes());
    e[28] = 1;
    e
}

#[test]
fn srat_entries() {
    let a0 = apic_affinity(0, 0, true);
    let a1 = apic_affinity(1, 1, true);
    let a2 = apic_affinity(1, 2, false);
    let m0 = memory_affinity(0, 0, 0x8000_0000);
    let m1 = memory_affinity(1, 0x1_0000_0000, 0x1000);
    let empty = memory_affinity(1, 0x2_0000_0000, 0);
    let p = srat_payload(&[&a0, &m0, &a1, &a2, &m1, &empty]);
    let s = parse_srat(&p).unwrap();
    assert_eq!(s.apic_affinities.len(), 2);
    assert_eq!(s.apic_affinities.get(&0), Some(&0x100));
    assert_eq!(s.apic_affinities.get(&1), Some(&0x101));
    assert_eq!(s.apic_affinities.get(&2), None);
    assert_eq!(
        s.memory_affinities,
        vec![
            MemoryAffinity { domain: 0, start: 0, end: 0x7fff_ffff },
            MemoryAffinity { domain: 1, start: 0x1_0000_0000, end: 0x1_0000_0fff },
        ]
    );
}

#[test]
fn srat_errors() {
    let a0 = apic_affinity(0, 3, true);
    assert!(matches!(parse_srat(&srat_payload(&[&a0, &a0])), Err(AcpiError::DuplicateApicAffinity)));
    let over = memory_affinity(0, u64::MAX, 2);
    assert!(matches!(parse_srat(&srat_payload(&[&over])), Err(AcpiError::MemoryRangeOverflow)));
    let mut bad = apic_affinity(0, 0, true);
    bad[1] = 12;
    bad.truncate(12);
    assert!(matches!(parse_srat(&srat_payload(&[&bad])), Err(AcpiError::InvalidApicAffinity)));
    let mut bad_mem = memory_affinity(0, 0, 1);
    bad_mem[1] = 16;
    bad_mem.truncate(16);
    assert!(matches!(parse_srat(&srat_payload(&[&bad_mem])), Err(AcpiError::InvalidMemoryAffinity)));
    let bad_x2 = [2u8, 16, 0, 0, 0, 0, 0, 0, 0, 0, 0, 0, 0, 0, 0, 0];
    assert!(matches!(parse_srat(&srat_payload(&[&bad_x2])), Err(AcpiError::InvalidX2ApicAffinity)));
}

#[test]
fn tables_are_recorded_once() {
    let mut t = AcpiTables::new();
    let p = madt_payload(&[]);
    assert!(t.add_madt(parse_madt(&p).unwrap()).is_ok());
    assert!(matches!(t.add_madt(parse_madt(&p).unwrap()), Err(AcpiError::DuplicateTable)));
    let s = srat_payload(&[]);
    assert!(t.add_srat(parse_srat(&s).unwrap()).is_ok());
    assert!(matches!(t.add_srat(parse_srat(&s).unwrap()), Err(AcpiError::DuplicateTable)));
    assert!(t.madt.is_some());
}

#[test]
fn lapic_iterator_yields_the_parsed_lapics() {
    let lapic0: [u8; 8] = [0, 8, 0, 0, 1, 0, 0, 0];
    let lapic_disabled: [u8; 8] = [0, 8, 1, 1, 0, 0, 0, 0];
    let x2apic: [u8; 16] = [9, 16, 3, 4, 2, 0, 0, 0, 0, 0, 0, 0, 0, 0, 0, 0];
    let ioapic: [u8; 12] = [1, 12, 7, 0, 0, 0, 0xc0, 0xfe, 0, 0, 0, 0];
    let lapic5: [u8; 8] = [0, 8, 5, 5, 3, 0, 0, 0];
    let p = madt_payload(&[&ioapic, &lapic0, &lapic_disabled, &x2apic, &lapic5]);
    let m = parse_madt(&p).unwrap();
    let mut it = LapicIter::new(p);
    let mut seen = Vec::new();
    while let Some(l) = it.next().unwrap() {
        seen.push(l);
    }
    assert_eq!(seen, m.lapics);
    assert_eq!(seen.len(), 3);
}

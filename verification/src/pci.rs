//! PCI enumeration: the configuration space addresses of bus, device and
//! function numbers, the table of present devices, and the layout of the
//! configuration header.  The kernel reads the configuration space through the
//! I/O ports and hands the register values to these functions.
use vstd::prelude::*;
use crate::bytes::{le_u16, le_u32, read_u16, read_u32};

verus! {

/// I/O port for the PCI configuration space window address
pub const PCI_CONFIG_ADDRESS: u16 = 0xcf8;

/// I/O port for the PCI configuration space window data
pub const PCI_CONFIG_DATA: u16 = 0xcfc;

/// Enable bit for accessing the `0xcf8` I/O port
pub const PCI_ADDRESS_ENABLE: u32 = 0x8000_0000;

/// The number of bus, device and function combinations.
pub const NUM_PCI_ADDRS: usize = 65536;

/// A driver for a device found during enumeration.
pub trait Device {
    /// Brings the device to a state in which it disturbs no soft reboot.
    fn purge(&self);
}

/// Common PCI header for the PCI configuration space of any device or bridge
#[derive(Clone, Copy, Debug, PartialEq, Eq, Structural)]
pub struct PciHeader {
    pub vendor_id: u16,
    pub device_id: u16,
    pub command: u16,
    pub status: u16,
    pub revision: u8,
    pub prog_if: u8,
    pub subclass: u8,
    pub class: u8,
    pub cache_line_size: u8,
    pub latency_timer: u8,
    pub header_type: u8,
    pub bist: u8,
}

/// Configuration space for a PCI device
#[derive(Clone, Copy, Debug, PartialEq, Eq, Structural)]
pub struct PciDevice {
    /// Standard PCI configuration space header
    pub header: PciHeader,
    pub bar0: u32,
    pub bar1: u32,
    pub bar2: u32,
    pub bar3: u32,
    pub bar4: u32,
    pub bar5: u32,
    pub cardbus_cis_pointer: u32,
    pub subsystem_vendor_id: u16,
    pub subsystem_device_id: u16,
    pub expansion_rom_address: u32,
    pub capabilities: u8,
    pub interrupt_line: u8,
    pub interrupt_pin: u8,
    pub min_grant: u8,
    pub max_latency: u8,
}

/// The bytes of configuration registers, each little-endian.
pub open spec fn register_bytes(regs: Seq<u32>) -> Seq<u8> {
    Seq::new(4 * regs.len(), |i: int| ((regs[i / 4] >> (8 * (i % 4)) as u32) & 0xff) as u8)
}

/// The header laid out in the first 16 bytes.
pub open spec fn header_from(b: Seq<u8>) -> PciHeader {
    PciHeader {
        vendor_id: le_u16(b, 0) as u16,
        device_id: le_u16(b, 2) as u16,
        command: le_u16(b, 4) as u16,
        status: le_u16(b, 6) as u16,
        revision: b[8],
        prog_if: b[9],
        subclass: b[10],
        class: b[11],
        cache_line_size: b[12],
        latency_timer: b[13],
        header_type: b[14],
        bist: b[15],
    }
}

/// The device configuration laid out in the first 64 bytes.
pub open spec fn device_from(b: Seq<u8>) -> PciDevice {
    PciDevice {
        header: header_from(b),
        bar0: le_u32(b, 16) as u32,
        bar1: le_u32(b, 20) as u32,
        bar2: le_u32(b, 24) as u32,
        bar3: le_u32(b, 28) as u32,
        bar4: le_u32(b, 32) as u32,
        bar5: le_u32(b, 36) as u32,
        cardbus_cis_pointer: le_u32(b, 40) as u32,
        subsystem_vendor_id: le_u16(b, 44) as u16,
        subsystem_device_id: le_u16(b, 46) as u16,
        expansion_rom_address: le_u32(b, 48) as u32,
        capabilities: b[52],
        interrupt_line: b[60],
        interrupt_pin: b[61],
        min_grant: b[62],
        max_latency: b[63],
    }
}

/// The bytes of the registers, each little-endian.
pub fn registers_to_bytes(regs: &[u32]) -> (r: Vec<u8>)
    ensures
        r@ == register_bytes(regs@),
{
    let mut r: Vec<u8> = Vec::new();
    let mut i: usize = 0;
    while i < regs.len()
        invariant
            i <= regs@.len(),
            r@ == register_bytes(regs@).take(4 * i),
        decreases regs@.len() - i,
    {
        let v = regs[i];
        r.push((v & 0xff) as u8);
        r.push(((v >> 8u32) & 0xff) as u8);
        r.push(((v >> 16u32) & 0xff) as u8);
        r.push(((v >> 24u32) & 0xff) as u8);
        i = i + 1;
        proof {
            let base = 4 * (i - 1);
            assert((v >> 0u32) & 0xff == v & 0xff) by (bit_vector);
            assert(base / 4 == i - 1 && base % 4 == 0);
            assert((base + 1) / 4 == i - 1 && (base + 1) % 4 == 1);
            assert((base + 2) / 4 == i - 1 && (base + 2) % 4 == 2);
            assert((base + 3) / 4 == i - 1 && (base + 3) % 4 == 3);
            assert forall|j: int| base <= j < 4 * i implies #[trigger] register_bytes(regs@)[j] == r@[j] by {
                assert(j == base || j == base + 1 || j == base + 2 || j == base + 3);
            }
            assert(r@ =~= register_bytes(regs@).take(4 * i));
        }
    }
    assert(r@ =~= register_bytes(regs@));
    r
}

impl PciHeader {
    /// The header held by the first four configuration registers.
    pub fn from_registers(regs: &[u32]) -> (r: PciHeader)
        requires
            regs@.len() >= 4,
        ensures
            r == header_from(register_bytes(regs@)),
    {
        let b = registers_to_bytes(regs);
        PciHeader {
            vendor_id: read_u16(b.as_slice(), 0),
            device_id: read_u16(b.as_slice(), 2),
            command: read_u16(b.as_slice(), 4),
            status: read_u16(b.as_slice(), 6),
            revision: b[8],
            prog_if: b[9],
            subclass: b[10],
            class: b[11],
            cache_line_size: b[12],
            latency_timer: b[13],
            header_type: b[14],
            bist: b[15],
        }
    }

    /// Whether the entry is a device; bridges and other entries are skipped.
    pub fn is_device(&self) -> (r: bool)
        ensures
            r == (self.header_type & 0x7f == 0),
    {
        self.header_type & 0x7f == 0
    }
}

impl PciDevice {
    /// The configuration held by the first sixteen configuration registers.
    pub fn from_registers(regs: &[u32]) -> (r: PciDevice)
        requires
            regs@.len() >= 16,
        ensures
            r == device_from(register_bytes(regs@)),
    {
        let b = registers_to_bytes(regs);
        let s = b.as_slice();
        PciDevice {
            header: PciHeader {
                vendor_id: read_u16(s, 0),
                device_id: read_u16(s, 2),
                command: read_u16(s, 4),
                status: read_u16(s, 6),
                revision: b[8],
                prog_if: b[9],
                subclass: b[10],
                class: b[11],
                cache_line_size: b[12],
                latency_timer: b[13],
                header_type: b[14],
                bist: b[15],
            },
            bar0: read_u32(s, 16),
            bar1: read_u32(s, 20),
            bar2: read_u32(s, 24),
            bar3: read_u32(s, 28),
            bar4: read_u32(s, 32),
            bar5: read_u32(s, 36),
            cardbus_cis_pointer: read_u32(s, 40),
            subsystem_vendor_id: read_u16(s, 44),
            subsystem_device_id: read_u16(s, 46),
            expansion_rom_address: read_u32(s, 48),
            capabilities: b[52],
            interrupt_line: b[60],
            interrupt_pin: b[61],
            min_grant: b[62],
            max_latency: b[63],
        }
    }
}

/// The PCI address of a bus, device and function.
pub open spec fn pci_address_of(bus: int, device: int, function: int) -> int {
    bus * 256 + device * 8 + function
}

/// Returns the PCI address of a bus, device and function.
pub fn pci_address(bus: u32, device: u32, function: u32) -> (r: u32)
    requires
        bus < 256,
        device < 32,
        function < 8,
    ensures
        r == pci_address_of(bus as int, device as int, function as int),
        r < NUM_PCI_ADDRS,
{
    assert((bus << 8u32) | (device << 3u32) | function == bus * 256 + device * 8 + function) by (bit_vector)
        requires
            bus < 256,
            device < 32,
            function < 8,
    ;
    (bus << 8u32) | (device << 3u32) | function
}

/// Returns the configuration window address that selects register `offset` (a
/// byte offset, a multiple of four) of PCI address `pci_addr`.
pub fn config_address(pci_addr: u32, offset: u32) -> (r: u32)
    requires
        pci_addr < NUM_PCI_ADDRS,
        offset < 256,
        offset % 4 == 0,
    ensures
        r == PCI_ADDRESS_ENABLE + pci_addr * 256 + offset,
{
    assert(0x8000_0000u32 | (pci_addr << 8u32) | offset == 0x8000_0000u32 + pci_addr * 256 + offset)
        by (bit_vector)
        requires
            pci_addr < 65536,
            offset < 256,
    ;
    PCI_ADDRESS_ENABLE | (pci_addr << 8u32) | offset
}

/// Whether the vendor and device id read at an address show a present device.
pub fn is_present(did_vid: u32) -> (r: bool)
    ensures
        r == (did_vid != 0xffff_ffff),
{
    did_vid != 0xffff_ffff
}

/// The set of PCI addresses at which a device answered, as a bitmap.
pub struct PciEnumeration {
    bits: Vec<u64>,
}

impl PciEnumeration {
    /// Whether a device answered at `a`.
    pub closed spec fn contains(&self, a: int) -> bool {
        0 <= a < NUM_PCI_ADDRS && (self.bits@[a / 64] >> (a % 64) as u64) & 1 == 1
    }

    pub closed spec fn wf(&self) -> bool {
        self.bits@.len() == NUM_PCI_ADDRS / 64
    }

    /// No device found yet.
    pub fn new() -> (r: PciEnumeration)
        ensures
            r.wf(),
            forall|a: int| !r.contains(a),
    {
        let mut bits: Vec<u64> = Vec::new();
        while bits.len() < NUM_PCI_ADDRS / 64
            invariant
                bits@.len() <= NUM_PCI_ADDRS / 64,
                forall|i: int| 0 <= i < bits@.len() ==> bits@[i] == 0,
            decreases NUM_PCI_ADDRS / 64 - bits.len(),
        {
            bits.push(0);
        }
        let r = PciEnumeration { bits };
        assert forall|a: int| !r.contains(a) by {
            if 0 <= a < NUM_PCI_ADDRS {
                let s = (a % 64) as u64;
                assert((0u64 >> s) & 1 == 0) by (bit_vector);
            }
        }
        r
    }

    /// Records a device at `a`.
    pub fn set_present(&mut self, a: u32)
        requires
            old(self).wf(),
            a < NUM_PCI_ADDRS,
        ensures
            final(self).wf(),
            forall|x: int| #[trigger] final(self).contains(x) == (x == a || old(self).contains(x)),
    {
        let idx = (a / 64) as usize;
        let bit = (a % 64) as u64;
        let old_word = self.bits[idx];
        let word = old_word | (1u64 << bit);
        self.bits.set(idx, word);
        proof {
            assert forall|x: int| #[trigger] self.contains(x) == (x == a || old(self).contains(x)) by {
                if 0 <= x < NUM_PCI_ADDRS {
                    let s = (x % 64) as u64;
                    if x / 64 == idx {
                        assert(((old_word | (1u64 << bit)) >> s) & 1 == 1 <==> (s == bit || (old_word >> s)
                            & 1 == 1)) by (bit_vector)
                            requires
                                s < 64,
                                bit < 64,
                        ;
                        if s == bit {
                            assert(x == a);
                        }
                    }
                }
            }
        }
    }

    /// Whether a device answered at `a`.
    pub fn is_set(&self, a: u32) -> (r: bool)
        requires
            self.wf(),
            a < NUM_PCI_ADDRS,
        ensures
            r == self.contains(a as int),
    {
        let word = self.bits[(a / 64) as usize];
        (word >> ((a % 64) as u64)) & 1 == 1
    }

    /// The addresses at which a device answered, in increasing order.
    pub fn present_addresses(&self) -> (r: Vec<u32>)
        requires
            self.wf(),
        ensures
            forall|k: int| 0 <= k < r@.len() ==> self.contains(#[trigger] r@[k] as int),
            forall|k: int, l: int| 0 <= k < l < r@.len() ==> r@[k] < r@[l],
            forall|a: int| #[trigger] self.contains(a) ==> r@.contains(a as u32),
    {
        let mut r: Vec<u32> = Vec::new();
        let mut a: u32 = 0;
        while a < NUM_PCI_ADDRS as u32
            invariant
                self.wf(),
                a <= NUM_PCI_ADDRS,
                forall|k: int| 0 <= k < r@.len() ==> self.contains(#[trigger] r@[k] as int) && r@[k] < a,
                forall|k: int, l: int| 0 <= k < l < r@.len() ==> r@[k] < r@[l],
                forall|x: int| 0 <= x < a && #[trigger] self.contains(x) ==> r@.contains(x as u32),
            decreases NUM_PCI_ADDRS - a,
        {
            if self.is_set(a) {
                let ghost old_r = r@;
                r.push(a);
                proof {
                    assert forall|x: int| 0 <= x < a + 1 && #[trigger] self.contains(x) implies r@.contains(x as u32) by {
                        if x < a {
                            assert(old_r.contains(x as u32));
                            let k = choose|k: int| 0 <= k < old_r.len() && old_r[k] == x as u32;
                            assert(r@[k] == x as u32);
                        } else {
                            assert(r@[r@.len() - 1] == x as u32);
                        }
                    }
                }
            }
            a = a + 1;
        }
        r
    }
}

} // verus!

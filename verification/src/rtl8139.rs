//! The RTL8139 network card: the checks on its PCI configuration, the layout of
//! its I/O ports and buffers, the walk over its receive ring, and the transmit
//! registers it cycles through.  The kernel performs the port I/O.
use vstd::prelude::*;
use std::sync::Arc;
use crate::bytes::{le_u16, read_u16};
use crate::pci::{Device, PciDevice};

verus! {

/// The size of the receive buffer the card fills.
pub const MAX_RECV_BUFFER_SIZE: usize = 9708;

/// The largest packet the card sends.
pub const MAX_TRANS_BUFFER_SIZE: usize = 1792;

/// The memory reserved for the receive buffer, and for each transmit buffer.
pub const RECV_BUFFER_SIZE: u64 = 0x3000;
pub const TRANS_BUFFER_SIZE: u64 = 0x1000;

/// The length of the receive ring.
pub const RING_SIZE: usize = 8192;

/// The interrupts the card raises: receive ok, transmit ok, receive buffer and
/// receive FIFO overflow.
pub const IMR_VALUE: u16 = 0x59;

/// The receive configuration: accept packets to its address, multicast and
/// broadcast, into an 8 KiB ring.
pub const RCR_VALUE: u32 = 0xe;

/// Command register values: reset, and receiver and transmitter on.
pub const CMD_RESET: u8 = 0x10;
pub const CMD_ENABLE: u8 = 0xc;

/// The interrupt line the card is wired to.
pub const RTL8139_INTERRUPT_LINE: u8 = 11;

/// A probed RTL8139 card: its PCI configuration and address.
#[derive(Debug, Clone, Copy)]
pub struct Rtl8139 {
    pub dev: PciDevice,
    pub addr: u32,
}

/// Why the card cannot be set up.
#[derive(Debug, Clone, Copy, PartialEq, Eq, Structural)]
pub enum Rtl8139Error {
    /// The command register has interrupts disabled.
    InterruptsDisabled,
    /// The command register has the I/O space disabled.
    IoSpaceDisabled,
    /// The first base address maps memory, not I/O ports.
    NotIoMapped,
    /// A port number does not fit in 16 bits.
    PortOutOfRange,
    /// A buffer lies above 4 GiB.
    BufferOutOfRange,
    /// The card is wired to another interrupt line; the line.
    WrongInterruptLine(u8),
    /// The receive FIFO overflowed.
    RxFifoOverflow,
    /// The receive buffer overflowed.
    RxBufferOverflow,
    /// A transmission failed.
    TransmitError,
    /// A packet is larger than a transmit buffer; its size.
    PacketTooLarge(usize),
}

/// The I/O ports of the card.
#[derive(Debug, Clone, Copy)]
pub struct Rtl8139Ports {
    pub idr0: u16,
    pub idr4: u16,
    pub status: [u16; 4],
    pub transmit: [u16; 4],
    pub rbstart: u16,
    pub cmd: u16,
    pub capr: u16,
    pub imr: u16,
    pub isr: u16,
    pub rcr: u16,
    pub config_1: u16,
}

impl Rtl8139 {
    pub fn new(dev: &PciDevice, addr: u32) -> (r: Rtl8139)
        ensures
            r.dev == *dev,
            r.addr == addr,
    {
        Rtl8139 { dev: *dev, addr }
    }

    /// The command value that makes the card a bus master, when it is not one.
    pub fn bus_master_command(&self) -> (r: Option<u16>)
        ensures
            self.dev.header.command & 4 == 0 ==> r == Some(self.dev.header.command | 4),
            self.dev.header.command & 4 != 0 ==> r is None,
    {
        if self.dev.header.command & 4 == 0 {
            Some(self.dev.header.command | 4)
        } else {
            None
        }
    }

    /// Checks the command register and the first base address, and returns the
    /// I/O base: interrupts must be enabled, the I/O space enabled and the base
    /// address an I/O address.
    pub fn io_base(&self) -> (r: Result<u32, Rtl8139Error>)
        ensures
            self.dev.header.command & 0x400 != 0 ==> r == Err::<u32, Rtl8139Error>(
                Rtl8139Error::InterruptsDisabled,
            ),
            self.dev.header.command & 0x400 == 0 && self.dev.header.command & 1 == 0 ==> r == Err::<
                u32,
                Rtl8139Error,
            >(Rtl8139Error::IoSpaceDisabled),
            self.dev.header.command & 0x400 == 0 && self.dev.header.command & 1 != 0 && self.dev.bar0
                & 1 == 0 ==> r == Err::<u32, Rtl8139Error>(Rtl8139Error::NotIoMapped),
            self.dev.header.command & 0x400 == 0 && self.dev.header.command & 1 != 0 && self.dev.bar0
                & 1 != 0 ==> r == Ok::<u32, Rtl8139Error>(self.dev.bar0 & !3u32),
    {
        if self.dev.header.command & 0x400 != 0 {
            return Err(Rtl8139Error::InterruptsDisabled);
        }
        if self.dev.header.command & 1 == 0 {
            return Err(Rtl8139Error::IoSpaceDisabled);
        }
        if self.dev.bar0 & 1 == 0 {
            return Err(Rtl8139Error::NotIoMapped);
        }
        Ok(self.dev.bar0 & !3u32)
    }

    /// Checks the interrupt line the card is wired to.
    pub fn check_interrupt_line(&self) -> (r: Result<(), Rtl8139Error>)
        ensures
            self.dev.interrupt_line == RTL8139_INTERRUPT_LINE ==> r is Ok,
            self.dev.interrupt_line != RTL8139_INTERRUPT_LINE ==> r == Err::<(), Rtl8139Error>(
                Rtl8139Error::WrongInterruptLine(self.dev.interrupt_line),
            ),
    {
        if self.dev.interrupt_line != RTL8139_INTERRUPT_LINE {
            return Err(Rtl8139Error::WrongInterruptLine(self.dev.interrupt_line));
        }
        Ok(())
    }
}

impl Device for Rtl8139 {
    fn purge(&self) {
    }
}

/// The ports of the card at I/O base `iobase`, each at its offset from the base.
pub fn ports(iobase: u32) -> (r: Result<Rtl8139Ports, Rtl8139Error>)
    ensures
        iobase + 0x52 > u16::MAX ==> r == Err::<Rtl8139Ports, Rtl8139Error>(Rtl8139Error::PortOutOfRange),
        iobase + 0x52 <= u16::MAX ==> (r matches Ok(p) && p.idr0 == iobase && p.idr4 == iobase + 4
            && p.status@ == seq![(iobase + 0x10) as u16, (iobase + 0x14) as u16, (iobase + 0x18) as u16, (iobase + 0x1c) as u16]
            && p.transmit@ == seq![(iobase + 0x20) as u16, (iobase + 0x24) as u16, (iobase + 0x28) as u16, (iobase + 0x2c) as u16]
            && p.rbstart == iobase + 0x30 && p.cmd == iobase + 0x37 && p.capr == iobase + 0x38
            && p.imr == iobase + 0x3c && p.isr == iobase + 0x3e && p.rcr == iobase + 0x44
            && p.config_1 == iobase + 0x52),
{
    if iobase > 0xffff - 0x52 {
        return Err(Rtl8139Error::PortOutOfRange);
    }
    let b = iobase as u16;
    let r = Rtl8139Ports {
        idr0: b,
        idr4: b + 4,
        status: [b + 0x10, b + 0x14, b + 0x18, b + 0x1c],
        transmit: [b + 0x20, b + 0x24, b + 0x28, b + 0x2c],
        rbstart: b + 0x30,
        cmd: b + 0x37,
        capr: b + 0x38,
        imr: b + 0x3c,
        isr: b + 0x3e,
        rcr: b + 0x44,
        config_1: b + 0x52,
    };
    assert(r.status@ =~= seq![(iobase + 0x10) as u16, (iobase + 0x14) as u16, (iobase + 0x18) as u16, (iobase + 0x1c) as u16]);
    assert(r.transmit@ =~= seq![(iobase + 0x20) as u16, (iobase + 0x24) as u16, (iobase + 0x28) as u16, (iobase + 0x2c) as u16]);
    Ok(r)
}

/// The addresses of the receive buffer and the four transmit buffers in the
/// frame at `frame_start`: the receive buffer first, the transmit buffers behind
/// it.
pub fn buffer_addresses(frame_start: u64) -> (r: Result<(u32, [u32; 4]), Rtl8139Error>)
    ensures
        frame_start + RECV_BUFFER_SIZE + 3 * TRANS_BUFFER_SIZE > u32::MAX ==> r == Err::<
            (u32, [u32; 4]),
            Rtl8139Error,
        >(Rtl8139Error::BufferOutOfRange),
        frame_start + RECV_BUFFER_SIZE + 3 * TRANS_BUFFER_SIZE <= u32::MAX ==> (r matches Ok((rx, tx))
            && rx == frame_start && forall|i: int| 0 <= i < 4 ==> #[trigger] tx@[i] == frame_start
            + RECV_BUFFER_SIZE + i * TRANS_BUFFER_SIZE),
{
    if frame_start > 0xffff_ffff - (RECV_BUFFER_SIZE + 3 * TRANS_BUFFER_SIZE) {
        return Err(Rtl8139Error::BufferOutOfRange);
    }
    let f = frame_start as u32;
    let rx = 0x3000u32;
    let t = 0x1000u32;
    let tx = [f + rx, f + rx + t, f + rx + 2 * t, f + rx + 3 * t];
    Ok((f, tx))
}

/// The card's MAC address from its two address registers: the four bytes of the
/// first, then the two bytes of the second, each little-endian.
pub fn mac_from_registers(idr0: u32, idr4: u16) -> (r: [u8; 6])
    ensures
        r@ == seq![
            (idr0 & 0xff) as u8,
            ((idr0 >> 8u32) & 0xff) as u8,
            ((idr0 >> 16u32) & 0xff) as u8,
            ((idr0 >> 24u32) & 0xff) as u8,
            (idr4 & 0xff) as u8,
            ((idr4 >> 8u16) & 0xff) as u8,
        ],
{
    let r = [
        (idr0 & 0xff) as u8,
        ((idr0 >> 8u32) & 0xff) as u8,
        ((idr0 >> 16u32) & 0xff) as u8,
        ((idr0 >> 24u32) & 0xff) as u8,
        (idr4 & 0xff) as u8,
        ((idr4 >> 8u16) & 0xff) as u8,
    ];
    assert(r@ =~= seq![
        (idr0 & 0xff) as u8,
        ((idr0 >> 8u32) & 0xff) as u8,
        ((idr0 >> 16u32) & 0xff) as u8,
        ((idr0 >> 24u32) & 0xff) as u8,
        (idr4 & 0xff) as u8,
        ((idr4 >> 8u16) & 0xff) as u8,
    ]);
    r
}

/// Checks the interrupt status register when a packet arrived: the receive FIFO
/// and buffer must not have overflowed and no transmission failed.
pub fn check_interrupt_status(status: u16) -> (r: Result<(), Rtl8139Error>)
    ensures
        status & 0x40 != 0 ==> r == Err::<(), Rtl8139Error>(Rtl8139Error::RxFifoOverflow),
        status & 0x40 == 0 && status & 0x10 != 0 ==> r == Err::<(), Rtl8139Error>(
            Rtl8139Error::RxBufferOverflow,
        ),
        status & 0x40 == 0 && status & 0x10 == 0 && status & 0x8 != 0 ==> r == Err::<(), Rtl8139Error>(
            Rtl8139Error::TransmitError,
        ),
        status & 0x58 == 0 ==> r is Ok,
{
    assert(status & 0x58 == 0 <==> (status & 0x40 == 0 && status & 0x10 == 0 && status & 0x8 == 0))
        by (bit_vector);
    if status & 0x40 != 0 {
        return Err(Rtl8139Error::RxFifoOverflow);
    }
    if status & 0x10 != 0 {
        return Err(Rtl8139Error::RxBufferOverflow);
    }
    if status & 0x8 != 0 {
        return Err(Rtl8139Error::TransmitError);
    }
    Ok(())
}

/// Whether the receive buffer is empty, by the command register.
pub fn rx_buffer_empty(cmd: u8) -> (r: bool)
    ensures
        r == (cmd & 1 != 0),
{
    cmd & 1 != 0
}

/// What reading one packet at offset `off` of the receive ring gives: the packet
/// (when it does not wrap around the ring's end), the size its header gives,
/// whether that size looks wrong, the next offset and the value for the current
/// address register.
#[derive(Debug)]
pub struct RxStep {
    pub packet: Option<Vec<u8>>,
    pub size: usize,
    pub suspicious: bool,
    pub next_off: usize,
    pub capr: u16,
}

/// The packet size the header at `off` gives.
pub open spec fn rx_size(buf: Seq<u8>, off: int) -> int {
    le_u16(buf, off + 2)
}

/// The offset behind the packet at `off` of `size` bytes: the header and the
/// packet, rounded up to four bytes.
pub open spec fn rx_next(off: int, size: int) -> int {
    ((off + size + 4 + 3) / 4) * 4
}

/// Whether reading the packet at `off` runs without a panic: its header lies in
/// the buffer, a packet that does not wrap is at least its header long, and the
/// next offset lies past the first 16 bytes.
pub open spec fn rx_step_ok(buf: Seq<u8>, off: int) -> bool {
    &&& off + 4 <= buf.len()
    &&& off + rx_size(buf, off) <= RING_SIZE ==> rx_size(buf, off) >= 4
    &&& rx_next(off, rx_size(buf, off)) >= 0x10
}

/// Reads the packet at offset `off` of the receive buffer `buf`.
pub fn rx_step(buf: &[u8], off: usize) -> (r: RxStep)
    requires
        buf@.len() == MAX_RECV_BUFFER_SIZE,
        rx_step_ok(buf@, off as int),
    ensures
        r.size == rx_size(buf@, off as int),
        r.suspicious == (buf@.len() < off + r.size || r.size < 64),
        off + r.size > RING_SIZE ==> r.packet is None,
        off + r.size <= RING_SIZE ==> (r.packet matches Some(p) && p@ == buf@.subrange(off + 4, off + r.size)),
        r.capr == (rx_next(off as int, r.size as int) - 0x10) as u16,
        rx_next(off as int, r.size as int) > RING_SIZE ==> r.next_off == rx_next(off as int, r.size as int) - RING_SIZE,
        rx_next(off as int, r.size as int) <= RING_SIZE ==> r.next_off == rx_next(off as int, r.size as int),
{
    let size = read_u16(buf, off + 2) as usize;
    let suspicious = buf.len() < off + size || size < 64;
    let packet = if off + size > RING_SIZE {
        None
    } else {
        let mut p: Vec<u8> = Vec::new();
        let mut i = off + 4;
        while i < off + size
            invariant
                off + 4 <= i <= off + size,
                off + size <= RING_SIZE,
                buf@.len() == MAX_RECV_BUFFER_SIZE,
                p@ == buf@.subrange(off + 4, i as int),
            decreases off + size - i,
        {
            p.push(buf[i]);
            i = i + 1;
            assert(p@ =~= buf@.subrange(off + 4, i as int));
        }
        Some(p)
    };
    let sum = off + size + 4 + 3;
    let next = sum - sum % 4;
    assert(next == rx_next(off as int, size as int));
    let capr = (next - 0x10) as u16;
    let next_off = if next > RING_SIZE {
        next - RING_SIZE
    } else {
        next
    };
    RxStep { packet, size, suspicious, next_off, capr }
}

/// The transmit status value that hands a packet of `len` bytes to the card.
pub fn transmit_status(len: usize) -> (r: Result<u32, Rtl8139Error>)
    ensures
        len > MAX_TRANS_BUFFER_SIZE ==> r == Err::<u32, Rtl8139Error>(Rtl8139Error::PacketTooLarge(len)),
        len <= MAX_TRANS_BUFFER_SIZE ==> r == Ok::<u32, Rtl8139Error>(len as u32),
{
    if len > MAX_TRANS_BUFFER_SIZE {
        return Err(Rtl8139Error::PacketTooLarge(len));
    }
    Ok(len as u32)
}

/// Whether the card has sent the packet, by its transmit status.
pub fn transmit_done(status: u32) -> (r: bool)
    ensures
        r == (status & 0x8000 != 0),
{
    status & 0x8000 != 0
}

/// The transmit register used after register `cur`: the four are used in turn.
pub fn next_tx_register(cur: usize) -> (r: usize)
    ensures
        cur >= 3 ==> r == 0,
        cur < 3 ==> r == cur + 1,
{
    if cur >= 3 {
        0
    } else {
        cur + 1
    }
}

/// Returns a driver for the device when it is an RTL8139.
pub fn probe(dev: &PciDevice, addr: u32) -> (r: Option<Arc<Rtl8139>>)
    ensures
        dev.header.vendor_id == 0x10ec && dev.header.device_id == 0x8139 ==> (r matches Some(d)
            && d.dev == *dev && d.addr == addr),
        !(dev.header.vendor_id == 0x10ec && dev.header.device_id == 0x8139) ==> r is None,
{
    if dev.header.vendor_id == 0x10ec && dev.header.device_id == 0x8139 {
        return Some(Arc::new(Rtl8139::new(dev, addr)));
    }
    None
}

} // verus!

use perf_kernel::pci::{
    config_address, is_present, pci_address, registers_to_bytes, PciDevice, PciEnumeration,
    PciHeader,
};
use perf_kernel::rtl8139::{
    buffer_addresses, check_interrupt_status, mac_from_registers, next_tx_register, ports, probe,
    rx_buffer_empty, rx_step, transmit_done, transmit_status, Rtl8139, Rtl8139Error,
    MAX_RECV_BUFFER_SIZE, MAX_TRANS_BUFFER_SIZE, RING_SIZE,
};

/// The configuration registers of an RTL8139 at I/O base 0xc000 on line 11.
fn rtl_registers() -> [u32; 16] {
    let mut regs = [0u32; 16];
    regs[0] = 0x8139_10ec;
    regs[1] = 0x0290_0007;
    regs[2] = 0x0200_0020;
    regs[4] = 0xc001;
    regs[5] = 0xfebf_1000;
    regs[11] = 0x1100_1af4;
    regs[15] = 0x0000_010b;
    regs
}

#[test]
fn register_bytes_are_little_endian() {
    assert_eq!(registers_to_bytes(&[0x0403_0201, 0xa0b0_c0d0]), vec![1, 2, 3, 4, 0xd0, 0xc0, 0xb0, 0xa0]);
    assert!(registers_to_bytes(&[]).is_empty());
}

#[test]
fn header_and_device_from_registers() {
    let regs = rtl_registers();
    let h = PciHeader::from_registers(&regs[..4]);
    assert_eq!(h.vendor_id, 0x10ec);
    assert_eq!(h.device_id, 0x8139);
    assert_eq!(h.command, 7);
    assert_eq!(h.status, 0x0290);
    assert_eq!(h.revision, 0x20);
    assert_eq!(h.class, 2);
    assert!(h.is_device());
    let d = PciDevice::from_registers(&regs);
    assert_eq!(d.header, h);
    assert_eq!(d.bar0, 0xc001);
    assert_eq!(d.bar1, 0xfebf_1000);
    assert_eq!(d.subsystem_vendor_id, 0x1af4);
    assert_eq!(d.subsystem_device_id, 0x1100);
    assert_eq!(d.interrupt_line, 11);
    assert_eq!(d.interrupt_pin, 1);
    let mut bridge = regs;
    bridge[3] = 0x0001_0000;
    assert!(!PciHeader::from_registers(&bridge[..4]).is_device());
}

#[test]
fn addresses() {
    assert_eq!(pci_address(0, 3, 0), 24);
    assert_eq!(pci_address(1, 31, 7), 256 + 255);
    assert_eq!(config_address(24, 8), 0x8000_1808);
    assert!(is_present(0x8139_10ec));
    assert!(!is_present(0xffff_ffff));
}

#[test]
fn enumeration_bitmap() {
    let mut e = PciEnumeration::new();
    assert!(e.present_addresses().is_empty());
    e.set_present(300);
    e.set_present(24);
    e.set_present(65535);
    e.set_present(24);
    assert!(e.is_set(24));
    assert!(!e.is_set(25));
    assert_eq!(e.present_addresses(), vec![24, 300, 65535]);
}

#[test]
fn rtl8139_probe_and_checks() {
    let d = PciDevice::from_registers(&rtl_registers());
    let card = probe(&d, 24).unwrap();
    assert_eq!(card.addr, 24);
    assert_eq!(card.io_base(), Ok(0xc000));
    assert_eq!(card.bus_master_command(), None);
    assert_eq!(card.check_interrupt_line(), Ok(()));
    let mut other = d;
    other.header.device_id = 0x8169;
    assert!(probe(&other, 24).is_none());
    let mut off = d;
    off.header.command = 0x403;
    assert_eq!(Rtl8139::new(&off, 0).io_base(), Err(Rtl8139Error::InterruptsDisabled));
    off.header.command = 2;
    assert_eq!(Rtl8139::new(&off, 0).io_base(), Err(Rtl8139Error::IoSpaceDisabled));
    assert_eq!(Rtl8139::new(&off, 0).bus_master_command(), Some(6));
    off.header.command = 1;
    off.bar0 = 0xfebf_0000;
    assert_eq!(Rtl8139::new(&off, 0).io_base(), Err(Rtl8139Error::NotIoMapped));
    off.interrupt_line = 10;
    assert_eq!(Rtl8139::new(&off, 0).check_interrupt_line(), Err(Rtl8139Error::WrongInterruptLine(10)));
}

#[test]
fn rtl8139_ports_and_buffers() {
    let p = ports(0xc000).unwrap();
    assert_eq!(p.idr0, 0xc000);
    assert_eq!(p.idr4, 0xc004);
    assert_eq!(p.status, [0xc010, 0xc014, 0xc018, 0xc01c]);
    assert_eq!(p.transmit, [0xc020, 0xc024, 0xc028, 0xc02c]);
    assert_eq!(p.rbstart, 0xc030);
    assert_eq!(p.cmd, 0xc037);
    assert_eq!(p.capr, 0xc038);
    assert_eq!(p.imr, 0xc03c);
    assert_eq!(p.isr, 0xc03e);
    assert_eq!(p.rcr, 0xc044);
    assert_eq!(p.config_1, 0xc052);
    assert!(matches!(ports(0xfff0), Err(Rtl8139Error::PortOutOfRange)));
    let (rx, tx) = buffer_addresses(0x10_0000).unwrap();
    assert_eq!(rx, 0x10_0000);
    assert_eq!(tx, [0x10_3000, 0x10_4000, 0x10_5000, 0x10_6000]);
    assert_eq!(buffer_addresses(0xffff_f000), Err(Rtl8139Error::BufferOutOfRange));
}

#[test]
fn rtl8139_registers() {
    assert_eq!(mac_from_registers(0x5634_1252, 0x5700), [0x52, 0x12, 0x34, 0x56, 0x00, 0x57]);
    assert_eq!(check_interrupt_status(0x1), Ok(()));
    assert_eq!(check_interrupt_status(0x41), Err(Rtl8139Error::RxFifoOverflow));
    assert_eq!(check_interrupt_status(0x10), Err(Rtl8139Error::RxBufferOverflow));
    assert_eq!(check_interrupt_status(0x8), Err(Rtl8139Error::TransmitError));
    assert!(rx_buffer_empty(1));
    assert!(!rx_buffer_empty(0x0c));
    assert_eq!(transmit_status(60), Ok(60));
    assert_eq!(transmit_status(MAX_TRANS_BUFFER_SIZE + 1), Err(Rtl8139Error::PacketTooLarge(MAX_TRANS_BUFFER_SIZE + 1)));
    assert!(transmit_done(0x8000));
    assert!(!transmit_done(0x2000));
    assert_eq!(next_tx_register(0), 1);
    assert_eq!(next_tx_register(3), 0);
}

#[test]
fn rtl8139_receive_ring() {
    let mut buf = vec![0u8; MAX_RECV_BUFFER_SIZE];
    // A packet of 70 bytes (header included) at offset 16.
    buf[16] = 1;
    buf[18..20].copy_from_slice(&70u16.to_le_bytes());
    for i in 0..66 {
        buf[20 + i] = i as u8;
    }
    let step = rx_step(&buf, 16);
    assert_eq!(step.size, 70);
    assert!(!step.suspicious);
    let p = step.packet.unwrap();
    assert_eq!(p.len(), 66);
    assert_eq!(p[65], 65);
    assert_eq!(step.next_off, 92);
    assert_eq!(step.capr, 76);
    // A short packet near the end of the ring wraps.
    let off = RING_SIZE - 8;
    buf[off + 2..off + 4].copy_from_slice(&40u16.to_le_bytes());
    let wrap = rx_step(&buf, off);
    assert!(wrap.packet.is_none());
    assert!(wrap.suspicious);
    assert_eq!(wrap.next_off, 36);
    assert_eq!(wrap.capr, (RING_SIZE + 36 - 16) as u16);
}

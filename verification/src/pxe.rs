//! The network boot server's frame handling: picking out the DHCP discover
//! broadcasts of the boot client among raw Ethernet frames, and writing the
//! reply into a transmit buffer.  The frame layouts are read and written with
//! smoltcp's wire types.
use vstd::prelude::*;
use crate::server::be_u16;
use smoltcp::wire::{ArpHardware, DhcpPacket, EthernetAddress, EthernetFrame, Ipv4Address, Ipv4Packet, UdpPacket};

verus! {

/// The magic cookie that opens the DHCP options.
pub const DHCP_MAGIC_COOKIE: u32 = 0x6382_5363;

/// The UDP port a DHCP server listens on.
pub const DHCP_SERVER_PORT: u16 = 67;

/// The length of an Ethernet header.
pub const ETHERNET_HEADER_LEN: usize = 14;

/// The length of the fixed part of a DHCP packet, up to and with the magic
/// cookie.
pub const DHCP_FIXED_LEN: usize = 240;

/// The hardware address of the boot client the server answers.
pub open spec fn boot_client_mac() -> Seq<u8> {
    seq![0x00u8, 0x01, 0x2e, 0x91, 0xf7, 0xfd]
}

/// The Ethernet broadcast address.
pub open spec fn broadcast_mac() -> Seq<u8> {
    seq![0xffu8, 0xff, 0xff, 0xff, 0xff, 0xff]
}

/// The limited IPv4 broadcast address.
pub open spec fn broadcast_ip() -> Seq<u8> {
    seq![0xffu8, 0xff, 0xff, 0xff]
}

/// The big-endian 32-bit number at `off`.
pub open spec fn be_u32(b: Seq<u8>, off: int) -> int {
    0x100_0000 * b[off] + 0x1_0000 * b[off + 1] + 0x100 * b[off + 2] + b[off + 3]
}

/// The four bytes of `v`, big-endian.
pub open spec fn be_bytes32(v: u32) -> Seq<u8> {
    seq![(v / 0x100_0000) as u8, ((v / 0x1_0000) % 0x100) as u8, ((v / 0x100) % 0x100) as u8, (v % 0x100) as u8]
}

/// The two bytes of `v`, big-endian.
pub open spec fn be_bytes16(v: u16) -> Seq<u8> {
    seq![(v / 0x100) as u8, (v % 0x100) as u8]
}

/// `s` with the bytes from `off` on replaced by `b`.
pub open spec fn put(s: Seq<u8>, off: int, b: Seq<u8>) -> Seq<u8> {
    Seq::new(s.len(), |i: int| if off <= i < off + b.len() { b[i - off] } else { s[i] })
}

/// The length of an IPv4 header, from its IHL field.
pub open spec fn ipv4_header_len(p: Seq<u8>) -> int {
    (p[0] % 16) * 4
}

/// Whether smoltcp accepts `p` as an IPv4 packet: the addresses are there, and
/// the header and total lengths fit the buffer and each other.
pub open spec fn ipv4_fits(p: Seq<u8>) -> bool {
    &&& p.len() >= 20
    &&& ipv4_header_len(p) <= p.len()
    &&& ipv4_header_len(p) <= be_u16(p, 2)
    &&& be_u16(p, 2) <= p.len()
}

/// Whether smoltcp accepts `p` as a UDP packet: the header is there, and its
/// length field covers the header and fits the buffer.
pub open spec fn udp_fits(p: Seq<u8>) -> bool {
    &&& p.len() >= 8
    &&& be_u16(p, 4) <= p.len()
    &&& be_u16(p, 4) >= 8
}

/// A DHCP discover the server answers: the client's hardware address and the
/// transaction id.
#[derive(Debug, Clone, Copy, PartialEq, Eq)]
pub struct PxeDiscover {
    pub client_mac: [u8; 6],
    pub transaction_id: u32,
}

/// What the server reads from a frame: the client's hardware address and the
/// transaction id of a DHCP packet with the broadcast flag, carried in UDP to
/// port 67, in IPv4 to the limited broadcast address, in an Ethernet broadcast
/// from the boot client; `None` for every other frame.
pub open spec fn discover_of(f: Seq<u8>) -> Option<(Seq<u8>, int)> {
    let ip = f.subrange(14, f.len() as int);
    let udp = ip.subrange(ipv4_header_len(ip), be_u16(ip, 2));
    let d = udp.subrange(8, be_u16(udp, 4));
    if f.subrange(0, 6) == broadcast_mac() && f.subrange(6, 12) == boot_client_mac() && ipv4_fits(ip)
        && ip.subrange(16, 20) == broadcast_ip() && udp_fits(udp) && be_u16(udp, 2) == DHCP_SERVER_PORT
        && d.len() >= 240 && d[11] % 2 == 1 {
        Some((d.subrange(28, 34), be_u32(d, 4)))
    } else {
        None
    }
}

/// Whether an Ethernet frame holds a header (smoltcp's `EthernetFrame::new_checked`).
#[verifier::external_body]
fn ethernet_fits(frame: &[u8]) -> (r: bool)
    ensures
        r == (frame@.len() >= 14),
{
    EthernetFrame::new_checked(frame).is_ok()
}

/// The destination address of an Ethernet frame (`EthernetFrame::dst_addr`):
/// bytes 0 to 5.
#[verifier::external_body]
fn ethernet_dst(frame: &[u8]) -> (r: [u8; 6])
    requires
        frame@.len() >= 14,
    ensures
        r@ == frame@.subrange(0, 6),
{
    EthernetFrame::new_unchecked(frame).dst_addr().0
}

/// The source address of an Ethernet frame (`EthernetFrame::src_addr`): bytes
/// 6 to 11.
#[verifier::external_body]
fn ethernet_src(frame: &[u8]) -> (r: [u8; 6])
    requires
        frame@.len() >= 14,
    ensures
        r@ == frame@.subrange(6, 12),
{
    EthernetFrame::new_unchecked(frame).src_addr().0
}

/// The payload of an Ethernet frame (`EthernetFrame::payload`): the bytes from
/// 14 on.
#[verifier::external_body]
fn ethernet_payload(frame: &[u8]) -> (r: &[u8])
    requires
        frame@.len() >= 14,
    ensures
        r@ == frame@.subrange(14, frame@.len() as int),
{
    EthernetFrame::new_unchecked(frame).payload()
}

/// Whether smoltcp's `Ipv4Packet::new_checked` accepts the bytes.
#[verifier::external_body]
fn ipv4_accepts(packet: &[u8]) -> (r: bool)
    ensures
        r == ipv4_fits(packet@),
{
    Ipv4Packet::new_checked(packet).is_ok()
}

/// The destination address of an IPv4 packet (`Ipv4Packet::dst_addr`): bytes 16
/// to 19.
#[verifier::external_body]
fn ipv4_dst(packet: &[u8]) -> (r: [u8; 4])
    requires
        packet@.len() >= 20,
    ensures
        r@ == packet@.subrange(16, 20),
{
    Ipv4Packet::new_unchecked(packet).dst_addr().0
}

/// The payload of an IPv4 packet (`Ipv4Packet::payload`): from the end of the
/// header to the total length.
#[verifier::external_body]
fn ipv4_payload(packet: &[u8]) -> (r: &[u8])
    requires
        ipv4_fits(packet@),
    ensures
        r@ == packet@.subrange(ipv4_header_len(packet@), be_u16(packet@, 2)),
{
    Ipv4Packet::new_unchecked(packet).payload()
}

/// Whether smoltcp's `UdpPacket::new_checked` accepts the bytes.
#[verifier::external_body]
fn udp_accepts(packet: &[u8]) -> (r: bool)
    ensures
        r == udp_fits(packet@),
{
    UdpPacket::new_checked(packet).is_ok()
}

/// The destination port of a UDP packet (`UdpPacket::dst_port`): bytes 2 and 3,
/// big-endian.
#[verifier::external_body]
fn udp_dst_port(packet: &[u8]) -> (r: u16)
    requires
        packet@.len() >= 8,
    ensures
        r == be_u16(packet@, 2),
{
    UdpPacket::new_unchecked(packet).dst_port()
}

/// The payload of a UDP packet (`UdpPacket::payload`): from byte 8 to the length
/// field.
#[verifier::external_body]
fn udp_payload(packet: &[u8]) -> (r: &[u8])
    requires
        udp_fits(packet@),
    ensures
        r@ == packet@.subrange(8, be_u16(packet@, 4)),
{
    UdpPacket::new_unchecked(packet).payload()
}

/// Whether smoltcp's `DhcpPacket::new_checked` accepts the bytes: the fixed part
/// up to the magic cookie is there.
#[verifier::external_body]
fn dhcp_accepts(packet: &[u8]) -> (r: bool)
    ensures
        r == (packet@.len() >= 240),
{
    DhcpPacket::new_checked(packet).is_ok()
}

/// The broadcast flag of a DHCP packet (`DhcpPacket::broadcast_flag`): the low
/// bit of the flags field, bytes 10 and 11.
#[verifier::external_body]
fn dhcp_broadcast_flag(packet: &[u8]) -> (r: bool)
    requires
        packet@.len() >= 240,
    ensures
        r == (packet@[11] % 2 == 1),
{
    DhcpPacket::new_unchecked(packet).broadcast_flag()
}

/// The transaction id of a DHCP packet (`DhcpPacket::transaction_id`): bytes 4
/// to 7, big-endian.
#[verifier::external_body]
fn dhcp_transaction_id(packet: &[u8]) -> (r: u32)
    requires
        packet@.len() >= 240,
    ensures
        r == be_u32(packet@, 4),
{
    DhcpPacket::new_unchecked(packet).transaction_id()
}

/// The client hardware address of a DHCP packet
/// (`DhcpPacket::client_hardware_address`): bytes 28 to 33.
#[verifier::external_body]
fn dhcp_client_mac(packet: &[u8]) -> (r: [u8; 6])
    requires
        packet@.len() >= 240,
    ensures
        r@ == packet@.subrange(28, 34),
{
    DhcpPacket::new_unchecked(packet).client_hardware_address().0
}

/// Whether two hardware addresses are equal.
fn mac_is(a: [u8; 6], b: [u8; 6]) -> (r: bool)
    ensures
        r == (a@ == b@),
{
    let mut i: usize = 0;
    while i < 6
        invariant
            i <= 6,
            forall|k: int| 0 <= k < i ==> a@[k] == b@[k],
        decreases 6 - i,
    {
        if a[i] != b[i] {
            return false;
        }
        i = i + 1;
    }
    assert(a@ =~= b@);
    true
}

/// Reads a received Ethernet frame: the DHCP discover of the boot client it
/// carries (see `discover_of`), or `None` for any other frame.
pub fn pxe_discover(frame: &[u8]) -> (r: Option<PxeDiscover>)
    requires
        frame@.len() >= 14,
    ensures
        match discover_of(frame@) {
            Some((mac, xid)) => r matches Some(d) && d.client_mac@ == mac && d.transaction_id == xid,
            None => r is None,
        },
{
    if !ethernet_fits(frame) {
        return None;
    }
    let dst = ethernet_dst(frame);
    if !mac_is(dst, [0xff, 0xff, 0xff, 0xff, 0xff, 0xff]) {
        assert(dst@ =~= frame@.subrange(0, 6));
        assert(broadcast_mac() =~= [0xffu8, 0xff, 0xff, 0xff, 0xff, 0xff]@);
        return None;
    }
    let src = ethernet_src(frame);
    if !mac_is(src, [0x00, 0x01, 0x2e, 0x91, 0xf7, 0xfd]) {
        assert(boot_client_mac() =~= [0x00u8, 0x01, 0x2e, 0x91, 0xf7, 0xfd]@);
        return None;
    }
    proof {
        assert(broadcast_mac() =~= [0xffu8, 0xff, 0xff, 0xff, 0xff, 0xff]@);
        assert(boot_client_mac() =~= [0x00u8, 0x01, 0x2e, 0x91, 0xf7, 0xfd]@);
    }
    let ip = ethernet_payload(frame);
    if !ipv4_accepts(ip) {
        return None;
    }
    let ip_dst = ipv4_dst(ip);
    if !(ip_dst[0] == 0xff && ip_dst[1] == 0xff && ip_dst[2] == 0xff && ip_dst[3] == 0xff) {
        proof {
            if ip@.subrange(16, 20) == broadcast_ip() {
                assert(ip_dst@[0] == broadcast_ip()[0]);
                assert(ip_dst@[1] == broadcast_ip()[1]);
                assert(ip_dst@[2] == broadcast_ip()[2]);
                assert(ip_dst@[3] == broadcast_ip()[3]);
            }
        }
        return None;
    }
    assert(ip@.subrange(16, 20) =~= broadcast_ip());
    let udp = ipv4_payload(ip);
    if !udp_accepts(udp) {
        return None;
    }
    if udp_dst_port(udp) != DHCP_SERVER_PORT {
        return None;
    }
    let dhcp = udp_payload(udp);
    if !dhcp_accepts(dhcp) {
        return None;
    }
    if !dhcp_broadcast_flag(dhcp) {
        return None;
    }
    let client_mac = dhcp_client_mac(dhcp);
    let transaction_id = dhcp_transaction_id(dhcp);
    Some(PxeDiscover { client_mac, transaction_id })
}

/// Byte `k` of the DHCP packet the server sends in reply to `req`: opcode
/// reply, Ethernet hardware with 6-byte addresses, no hops, the request's
/// transaction id, no seconds, the broadcast flag, all four IPv4 addresses zero,
/// the client's hardware address, empty server name and boot file, and the
/// magic cookie.
pub open spec fn reply_dhcp_byte(req: PxeDiscover, k: int) -> u8 {
    if k == 0 {
        2
    } else if k == 1 {
        1
    } else if k == 2 {
        6
    } else if 4 <= k < 8 {
        be_bytes32(req.transaction_id)[k - 4]
    } else if k == 11 {
        1
    } else if 28 <= k < 34 {
        req.client_mac@[k - 28]
    } else if 236 <= k < 240 {
        be_bytes32(DHCP_MAGIC_COOKIE)[k - 236]
    } else {
        0
    }
}

/// The transmit buffer `b` after the reply to `req` is written into it: the
/// frame goes to the client's hardware address, and the DHCP packet stands right
/// behind the Ethernet header; the other bytes are kept.
pub open spec fn reply_frame(b: Seq<u8>, req: PxeDiscover) -> Seq<u8> {
    Seq::new(
        b.len(),
        |i: int|
            if i < 6 {
                req.client_mac@[i]
            } else if 14 <= i < 254 {
                reply_dhcp_byte(req, i - 14)
            } else {
                b[i]
            },
    )
}

/// Sets the destination address of an Ethernet frame
/// (`EthernetFrame::set_dst_addr`): bytes 0 to 5.
#[verifier::external_body]
fn ethernet_set_dst(frame: &mut [u8], mac: [u8; 6])
    requires
        old(frame)@.len() >= 254,
    ensures
        final(frame)@ == put(old(frame)@, 0, mac@),
{
    EthernetFrame::new_unchecked(frame).set_dst_addr(EthernetAddress(mac));
}

/// Sets the magic cookie of the DHCP packet in the frame's payload
/// (`DhcpPacket::set_magic_number`): bytes 236 to 239 of the packet, big-endian.
#[verifier::external_body]
fn dhcp_set_magic_number(frame: &mut [u8], value: u32)
    requires
        old(frame)@.len() >= 254,
    ensures
        final(frame)@ == put(old(frame)@, 250, be_bytes32(value)),
{
    let mut f = EthernetFrame::new_unchecked(frame);
    let mut p = DhcpPacket::new_unchecked(f.payload_mut());
    p.set_magic_number(value);
}

/// Zeroes the server name and boot file fields of the DHCP packet in the
/// frame's payload (`DhcpPacket::set_sname_and_boot_file_to_zero`): bytes 34 to
/// 235 of the packet.
#[verifier::external_body]
fn dhcp_zero_names(frame: &mut [u8])
    requires
        old(frame)@.len() >= 254,
    ensures
        final(frame)@ == put(old(frame)@, 48, Seq::new(202, |i: int| 0u8)),
{
    let mut f = EthernetFrame::new_unchecked(frame);
    let mut p = DhcpPacket::new_unchecked(f.payload_mut());
    p.set_sname_and_boot_file_to_zero();
}

/// Sets the operation code of the DHCP packet in the frame's payload to reply
/// (`DhcpPacket::set_opcode`): byte 0 of the packet becomes 2.
#[verifier::external_body]
fn dhcp_set_reply_opcode(frame: &mut [u8])
    requires
        old(frame)@.len() >= 254,
    ensures
        final(frame)@ == old(frame)@.update(14, 2u8),
{
    let mut f = EthernetFrame::new_unchecked(frame);
    let mut p = DhcpPacket::new_unchecked(f.payload_mut());
    p.set_opcode(2u8.into());
}

/// Sets the hardware type of the DHCP packet in the frame's payload to Ethernet
/// (`DhcpPacket::set_hardware_type`): byte 1 of the packet becomes 1.
#[verifier::external_body]
fn dhcp_set_ethernet_hardware(frame: &mut [u8])
    requires
        old(frame)@.len() >= 254,
    ensures
        final(frame)@ == old(frame)@.update(15, 1u8),
{
    let mut f = EthernetFrame::new_unchecked(frame);
    let mut p = DhcpPacket::new_unchecked(f.payload_mut());
    p.set_hardware_type(ArpHardware::Ethernet);
}

/// Sets the hardware address length of the DHCP packet in the frame's payload
/// (`DhcpPacket::set_hardware_len`): byte 2 of the packet.
#[verifier::external_body]
fn dhcp_set_hardware_len(frame: &mut [u8], value: u8)
    requires
        old(frame)@.len() >= 254,
    ensures
        final(frame)@ == old(frame)@.update(16, value),
{
    let mut f = EthernetFrame::new_unchecked(frame);
    let mut p = DhcpPacket::new_unchecked(f.payload_mut());
    p.set_hardware_len(value);
}

/// Sets the hops field of the DHCP packet in the frame's payload
/// (`DhcpPacket::set_hops`): byte 3 of the packet.
#[verifier::external_body]
fn dhcp_set_hops(frame: &mut [u8], value: u8)
    requires
        old(frame)@.len() >= 254,
    ensures
        final(frame)@ == old(frame)@.update(17, value),
{
    let mut f = EthernetFrame::new_unchecked(frame);
    let mut p = DhcpPacket::new_unchecked(f.payload_mut());
    p.set_hops(value);
}

/// Sets the transaction id of the DHCP packet in the frame's payload
/// (`DhcpPacket::set_transaction_id`): bytes 4 to 7 of the packet, big-endian.
#[verifier::external_body]
fn dhcp_set_transaction_id(frame: &mut [u8], value: u32)
    requires
        old(frame)@.len() >= 254,
    ensures
        final(frame)@ == put(old(frame)@, 18, be_bytes32(value)),
{
    let mut f = EthernetFrame::new_unchecked(frame);
    let mut p = DhcpPacket::new_unchecked(f.payload_mut());
    p.set_transaction_id(value);
}

/// Sets the seconds field of the DHCP packet in the frame's payload
/// (`DhcpPacket::set_secs`): bytes 8 and 9 of the packet, big-endian.
#[verifier::external_body]
fn dhcp_set_secs(frame: &mut [u8], value: u16)
    requires
        old(frame)@.len() >= 254,
    ensures
        final(frame)@ == put(old(frame)@, 22, be_bytes16(value)),
{
    let mut f = EthernetFrame::new_unchecked(frame);
    let mut p = DhcpPacket::new_unchecked(f.payload_mut());
    p.set_secs(value);
}

/// Sets the flags field of the DHCP packet in the frame's payload to the
/// broadcast flag alone or to none (`DhcpPacket::set_broadcast_flag`): bytes 10
/// and 11 of the packet become 1 or 0, big-endian.
#[verifier::external_body]
fn dhcp_set_broadcast_flag(frame: &mut [u8], value: bool)
    requires
        old(frame)@.len() >= 254,
    ensures
        final(frame)@ == put(old(frame)@, 24, be_bytes16(if value { 1u16 } else { 0u16 })),
{
    let mut f = EthernetFrame::new_unchecked(frame);
    let mut p = DhcpPacket::new_unchecked(f.payload_mut());
    p.set_broadcast_flag(value);
}

/// Sets the client address (`ciaddr`) of the DHCP packet in the frame's payload
/// (`DhcpPacket::set_client_ip`): bytes 12 to 15 of the packet.
#[verifier::external_body]
fn dhcp_set_client_ip(frame: &mut [u8], ip: [u8; 4])
    requires
        old(frame)@.len() >= 254,
    ensures
        final(frame)@ == put(old(frame)@, 26, ip@),
{
    let mut f = EthernetFrame::new_unchecked(frame);
    let mut p = DhcpPacket::new_unchecked(f.payload_mut());
    p.set_client_ip(Ipv4Address(ip));
}

/// Sets the offered address (`yiaddr`) of the DHCP packet in the frame's payload
/// (`DhcpPacket::set_your_ip`): bytes 16 to 19 of the packet.
#[verifier::external_body]
fn dhcp_set_your_ip(frame: &mut [u8], ip: [u8; 4])
    requires
        old(frame)@.len() >= 254,
    ensures
        final(frame)@ == put(old(frame)@, 30, ip@),
{
    let mut f = EthernetFrame::new_unchecked(frame);
    let mut p = DhcpPacket::new_unchecked(f.payload_mut());
    p.set_your_ip(Ipv4Address(ip));
}

/// Sets the server address (`siaddr`) of the DHCP packet in the frame's payload
/// (`DhcpPacket::set_server_ip`): bytes 20 to 23 of the packet.
#[verifier::external_body]
fn dhcp_set_server_ip(frame: &mut [u8], ip: [u8; 4])
    requires
        old(frame)@.len() >= 254,
    ensures
        final(frame)@ == put(old(frame)@, 34, ip@),
{
    let mut f = EthernetFrame::new_unchecked(frame);
    let mut p = DhcpPacket::new_unchecked(f.payload_mut());
    p.set_server_ip(Ipv4Address(ip));
}

/// Sets the relay agent address (`giaddr`) of the DHCP packet in the frame's payload
/// (`DhcpPacket::set_relay_agent_ip`): bytes 24 to 27 of the packet.
#[verifier::external_body]
fn dhcp_set_relay_agent_ip(frame: &mut [u8], ip: [u8; 4])
    requires
        old(frame)@.len() >= 254,
    ensures
        final(frame)@ == put(old(frame)@, 38, ip@),
{
    let mut f = EthernetFrame::new_unchecked(frame);
    let mut p = DhcpPacket::new_unchecked(f.payload_mut());
    p.set_relay_agent_ip(Ipv4Address(ip));
}

/// Sets the client hardware address of the DHCP packet in the frame's payload
/// (`DhcpPacket::set_client_hardware_address`): bytes 28 to 33 of the packet.
#[verifier::external_body]
fn dhcp_set_client_mac(frame: &mut [u8], mac: [u8; 6])
    requires
        old(frame)@.len() >= 254,
    ensures
        final(frame)@ == put(old(frame)@, 42, mac@),
{
    let mut f = EthernetFrame::new_unchecked(frame);
    let mut p = DhcpPacket::new_unchecked(f.payload_mut());
    p.set_client_hardware_address(EthernetAddress(mac));
}

/// Writes the reply to the discover `req` into the transmit buffer `buf` (see
/// `reply_frame`).
pub fn pxe_reply(req: &PxeDiscover, buf: &mut [u8])
    requires
        old(buf)@.len() >= 254,
    ensures
        final(buf)@ == reply_frame(old(buf)@, *req),
{
    let ghost b0 = buf@;
    ethernet_set_dst(buf, req.client_mac);
    dhcp_set_magic_number(buf, DHCP_MAGIC_COOKIE);
    dhcp_zero_names(buf);
    dhcp_set_reply_opcode(buf);
    dhcp_set_ethernet_hardware(buf);
    dhcp_set_hardware_len(buf, 6);
    dhcp_set_hops(buf, 0);
    dhcp_set_transaction_id(buf, req.transaction_id);
    dhcp_set_secs(buf, 0);
    dhcp_set_broadcast_flag(buf, true);
    dhcp_set_client_ip(buf, [0, 0, 0, 0]);
    dhcp_set_your_ip(buf, [0, 0, 0, 0]);
    dhcp_set_server_ip(buf, [0, 0, 0, 0]);
    dhcp_set_relay_agent_ip(buf, [0, 0, 0, 0]);
    dhcp_set_client_mac(buf, req.client_mac);
    assert(buf@ =~= reply_frame(b0, *req));
}

} // verus!

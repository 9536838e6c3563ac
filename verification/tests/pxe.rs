use perf_kernel::pxe::{pxe_discover, pxe_reply, PxeDiscover, DHCP_MAGIC_COOKIE};

const CLIENT: [u8; 6] = [0x00, 0x01, 0x2e, 0x91, 0xf7, 0xfd];
const CHADDR: [u8; 6] = [0xaa, 0xbb, 0xcc, 0xdd, 0xee, 0xff];

fn discover_frame() -> Vec<u8> {
    let mut f = vec![0u8; 14 + 20 + 8 + 240];
    f[0..6].copy_from_slice(&[0xff; 6]);
    f[6..12].copy_from_slice(&CLIENT);
    f[12] = 0x08;
    let ip = 14;
    f[ip] = 0x45;
    f[ip + 2] = 0x01;
    f[ip + 3] = 0x0c;
    f[ip + 9] = 17;
    f[ip + 16..ip + 20].copy_from_slice(&[0xff; 4]);
    let udp = ip + 20;
    f[udp] = 0;
    f[udp + 1] = 68;
    f[udp + 2] = 0;
    f[udp + 3] = 67;
    f[udp + 4] = 0;
    f[udp + 5] = 248;
    let d = udp + 8;
    f[d] = 1;
    f[d + 4..d + 8].copy_from_slice(&[0x12, 0x34, 0x56, 0x78]);
    f[d + 11] = 1;
    f[d + 28..d + 34].copy_from_slice(&CHADDR);
    f
}

#[test]
fn pxe_discover_reads_client_and_transaction() {
    let f = discover_frame();
    assert_eq!(
        pxe_discover(&f),
        Some(PxeDiscover { client_mac: CHADDR, transaction_id: 0x1234_5678 })
    );
}

#[test]
fn pxe_discover_ignores_other_frames() {
    let mut f = discover_frame();
    f[0] = 0x02;
    assert_eq!(pxe_discover(&f), None);
    let mut f = discover_frame();
    f[11] = 0xfe;
    assert_eq!(pxe_discover(&f), None);
    let mut f = discover_frame();
    f[14 + 19] = 0x01;
    assert_eq!(pxe_discover(&f), None);
    let mut f = discover_frame();
    f[14 + 20 + 3] = 68;
    assert_eq!(pxe_discover(&f), None);
    let mut f = discover_frame();
    f[14 + 28 + 11] = 0;
    assert_eq!(pxe_discover(&f), None);
    // A UDP length that leaves less than the fixed DHCP part.
    let mut f = discover_frame();
    f[14 + 20 + 5] = 200;
    assert_eq!(pxe_discover(&f), None);
    // A total length past the end of the frame.
    let mut f = discover_frame();
    f[14 + 2] = 0x02;
    assert_eq!(pxe_discover(&f), None);
}

#[test]
fn pxe_reply_fills_the_dhcp_fields() {
    let req = PxeDiscover { client_mac: CHADDR, transaction_id: 0x1234_5678 };
    let mut buf = vec![0x77u8; 300];
    pxe_reply(&req, &mut buf);
    assert_eq!(&buf[0..6], &CHADDR);
    assert_eq!(&buf[6..14], &[0x77; 8]);
    let d = &buf[14..];
    assert_eq!(d[0], 2);
    assert_eq!(d[1], 1);
    assert_eq!(d[2], 6);
    assert_eq!(d[3], 0);
    assert_eq!(&d[4..8], &[0x12, 0x34, 0x56, 0x78]);
    assert_eq!(&d[8..10], &[0, 0]);
    assert_eq!(&d[10..12], &[0, 1]);
    assert_eq!(&d[12..28], &[0; 16]);
    assert_eq!(&d[28..34], &CHADDR);
    assert!(d[34..236].iter().all(|&b| b == 0));
    assert_eq!(&d[236..240], &DHCP_MAGIC_COOKIE.to_be_bytes());
    assert!(buf[254..].iter().all(|&b| b == 0x77));
}

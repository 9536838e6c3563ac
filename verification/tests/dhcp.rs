use perf_kernel::dhcp::{static_config, DhcpLease, Ipv4Cidr};

#[test]
fn new_address_is_assigned_once() {
    let mut lease = DhcpLease::new();
    let c = Ipv4Cidr { addr: 0x0a00_020f, prefix: 24 };
    assert_eq!(lease.offer(Some(c)), Some(c));
    assert_eq!(lease.offer(Some(c)), None);
}

#[test]
fn configuration_without_address_assigns_nothing() {
    let mut lease = DhcpLease::new();
    assert_eq!(lease.offer(None), None);
    let c = Ipv4Cidr { addr: 0x0a00_020f, prefix: 24 };
    assert_eq!(lease.offer(Some(c)), Some(c));
    assert_eq!(lease.offer(None), None);
    assert_eq!(lease.offer(Some(c)), None);
}

#[test]
fn changed_address_is_assigned_again() {
    let mut lease = DhcpLease::new();
    let a = Ipv4Cidr { addr: 0x0a00_020f, prefix: 24 };
    let b = Ipv4Cidr { addr: 0x0a00_020f, prefix: 16 };
    assert_eq!(lease.offer(Some(a)), Some(a));
    assert_eq!(lease.offer(Some(b)), Some(b));
    assert_eq!(lease.offer(Some(a)), Some(a));
}

#[test]
fn unspecified_address_is_not_assigned() {
    let mut lease = DhcpLease::new();
    assert_eq!(lease.offer(Some(Ipv4Cidr { addr: 0, prefix: 0 })), None);
}

#[test]
fn static_address_and_gateway() {
    let (cidr, gateway) = static_config();
    assert_eq!(cidr, Ipv4Cidr { addr: u32::from_be_bytes([192, 168, 178, 54]), prefix: 24 });
    assert_eq!(gateway, u32::from_be_bytes([192, 168, 178, 1]));
}

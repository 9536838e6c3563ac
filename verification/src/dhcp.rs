//! The address of the network interface: what the DHCP client loop does with
//! the configurations it receives, and the fixed address used without DHCP.
use vstd::prelude::*;

verus! {

/// An IPv4 address, most significant byte first, with its prefix length.
#[derive(Clone, Copy, PartialEq, Eq, Structural, Debug)]
pub struct Ipv4Cidr {
    pub addr: u32,
    pub prefix: u8,
}

/// The address the interface starts with: 0.0.0.0/0.
pub open spec fn unspecified() -> Ipv4Cidr {
    Ipv4Cidr { addr: 0, prefix: 0 }
}

/// What a configuration offering `address` does to the address in use, `prev`:
/// the address in use afterwards, and the address to assign to the interface,
/// if any.  A new address is assigned; the address in use, or none, changes
/// nothing.
pub open spec fn offer_step(prev: Ipv4Cidr, address: Option<Ipv4Cidr>) -> (Ipv4Cidr, Option<Ipv4Cidr>) {
    match address {
        Some(c) => if c != prev {
            (c, Some(c))
        } else {
            (prev, None)
        },
        None => (prev, None),
    }
}

/// The address the DHCP client has put on the interface.
pub struct DhcpLease {
    current: Ipv4Cidr,
}

impl DhcpLease {
    pub closed spec fn current(&self) -> Ipv4Cidr {
        self.current
    }

    /// No address assigned yet.
    pub fn new() -> (r: DhcpLease)
        ensures
            r.current() == unspecified(),
    {
        DhcpLease { current: Ipv4Cidr { addr: 0, prefix: 0 } }
    }

    /// Takes the address of a configuration the client received; returns the
    /// address to assign to the interface when it differs from the one in use.
    pub fn offer(&mut self, address: Option<Ipv4Cidr>) -> (r: Option<Ipv4Cidr>)
        ensures
            (final(self).current(), r) == offer_step(old(self).current(), address),
    {
        match address {
            Some(c) => {
                if c != self.current {
                    self.current = c;
                    Some(c)
                } else {
                    None
                }
            },
            None => None,
        }
    }
}

/// An address offered twice in a row is assigned at most once: the second
/// offer changes nothing.
pub proof fn lemma_offer_once(prev: Ipv4Cidr, address: Option<Ipv4Cidr>)
    ensures
        offer_step(offer_step(prev, address).0, address) == (offer_step(prev, address).0, None::<Ipv4Cidr>),
{
}

/// The address the kernel uses without DHCP: 192.168.178.54/24, with the
/// default gateway 192.168.178.1.
pub fn static_config() -> (r: (Ipv4Cidr, u32))
    ensures
        r.0 == (Ipv4Cidr { addr: 0xc0a8_b236, prefix: 24 }),
        r.1 == 0xc0a8_b201,
{
    (Ipv4Cidr { addr: 0xc0a8_b236, prefix: 24 }, 0xc0a8_b201)
}

} // verus!

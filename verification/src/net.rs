//! Addresses as plain numbers.
use vstd::prelude::*;

verus! {

/// An IP address: its bits, most significant first.
#[derive(Clone, Copy, PartialEq, Eq, Structural, Debug, Hash)]
pub enum IpAddr {
    V4(u32),
    V6(u128),
}

/// An IP address and a port. For IPv6 there are the flow information and the
/// scope too: addresses that differ there are different.
#[allow(inconsistent_fields)]
#[derive(Clone, Copy, PartialEq, Eq, Structural, Debug, Hash)]
pub enum SocketAddr {
    V4 { ip: u32, port: u16 },
    V6 { ip: u128, port: u16, flowinfo: u32, scope_id: u32 },
}

impl SocketAddr {
    /// Whether this is an IPv4 address.
    pub open spec fn is_v4(self) -> bool {
        self is V4
    }

    /// The IP address, without the port.
    pub open spec fn ip_spec(&self) -> IpAddr {
        match *self {
            SocketAddr::V4 { ip, .. } => IpAddr::V4(ip),
            SocketAddr::V6 { ip, .. } => IpAddr::V6(ip),
        }
    }

    /// The IP address, without the port.
    #[verifier::when_used_as_spec(ip_spec)]
    pub fn ip(&self) -> (ip: IpAddr)
        ensures
            ip == self.ip_spec(),
    {
        match *self {
            SocketAddr::V4 { ip, .. } => IpAddr::V4(ip),
            SocketAddr::V6 { ip, .. } => IpAddr::V6(ip),
        }
    }

    /// The IPv4 address `a.b.c.d` with a port.
    pub fn v4(a: u8, b: u8, c: u8, d: u8, port: u16) -> (addr: SocketAddr)
        ensures
            addr == (SocketAddr::V4 {
                ip: (a as int * 0x100_0000 + b as int * 0x1_0000 + c as int * 0x100
                    + d as int) as u32,
                port,
            }),
    {
        let ip: u32 = a as u32 * 0x100_0000 + b as u32 * 0x1_0000 + c as u32 * 0x100 + d as u32;
        SocketAddr::V4 { ip, port }
    }

    /// The unspecified address of the same family, with port zero: what a
    /// socket is bound to before it is connected to this address.
    pub fn unspecified_peer(&self) -> (addr: SocketAddr)
        ensures
            addr == match *self {
                SocketAddr::V4 { .. } => (SocketAddr::V4 { ip: 0, port: 0 }),
                SocketAddr::V6 { .. } => (SocketAddr::V6 {
                    ip: 0,
                    port: 0,
                    flowinfo: 0,
                    scope_id: 0,
                }),
            },
    {
        match *self {
            SocketAddr::V4 { .. } => SocketAddr::V4 { ip: 0, port: 0 },
            SocketAddr::V6 { .. } => SocketAddr::V6 { ip: 0, port: 0, flowinfo: 0, scope_id: 0 },
        }
    }
}

/// The IP address of a socket address is of its family and has its bits, whatever
/// the port.
pub proof fn law_the_ip_is_the_address_without_its_port(addr: SocketAddr)
    ensures
        addr matches SocketAddr::V4 { ip, .. } ==> addr.ip_spec() == IpAddr::V4(ip),
        addr matches SocketAddr::V6 { ip, .. } ==> addr.ip_spec() == IpAddr::V6(ip),
{
}

} // verus!

//! IP addresses of either version.

use super::ipv4::{Ipv4Address, Ipv4Cidr};
use super::ipv6::{Ipv6Address, Ipv6Cidr};
use vstd::prelude::*;

verus! {

/// A version of the Internet Protocol.
#[derive(Clone, Copy, PartialEq, Eq, Structural, Debug)]
pub enum IpVersion {
    V4,
    V6,
}

/// A protocol carried by IP.
#[derive(Clone, Copy, PartialEq, Eq, Structural, Debug)]
pub struct IpProtocol(pub u8);

/// The number of ICMP.
pub const IP_PROTOCOL_ICMP: u8 = 1;

/// The number of TCP.
pub const IP_PROTOCOL_TCP: u8 = 6;

/// The number of UDP.
pub const IP_PROTOCOL_UDP: u8 = 17;

/// The number of ICMPv6.
pub const IP_PROTOCOL_ICMPV6: u8 = 58;

/// An IP address of either version.
#[derive(Clone, Copy, PartialEq, Eq, Structural, Debug)]
pub enum IpAddress {
    Ipv4(Ipv4Address),
    Ipv6(Ipv6Address),
}

impl IpAddress {
    /// The version of the address.
    pub open spec fn of_version(self) -> IpVersion {
        match self {
            IpAddress::Ipv4(_) => IpVersion::V4,
            IpAddress::Ipv6(_) => IpVersion::V6,
        }
    }

    /// The version of the address.
    pub fn version(&self) -> (version: IpVersion)
        ensures
            version == self.of_version(),
    {
        match self {
            IpAddress::Ipv4(_) => IpVersion::V4,
            IpAddress::Ipv6(_) => IpVersion::V6,
        }
    }

    /// Whether this is the unspecified address of its version.
    pub open spec fn is_any(self) -> bool {
        match self {
            IpAddress::Ipv4(addr) => addr == Ipv4Address::any(),
            IpAddress::Ipv6(addr) => addr == Ipv6Address::any(),
        }
    }

    /// Whether this is the unspecified address of its version.
    pub fn is_unspecified(&self) -> (r: bool)
        ensures
            r == self.is_any(),
    {
        match self {
            IpAddress::Ipv4(addr) => addr.is_unspecified(),
            IpAddress::Ipv6(addr) => addr.is_unspecified(),
        }
    }

    /// Whether this can be the address of one host.
    pub open spec fn unicast(self) -> bool {
        match self {
            IpAddress::Ipv4(addr) => addr.unicast(),
            IpAddress::Ipv6(addr) => addr.unicast(),
        }
    }

    /// Whether this is a unicast address.
    pub fn is_unicast(&self) -> (r: bool)
        ensures
            r == self.unicast(),
    {
        match self {
            IpAddress::Ipv4(addr) => addr.x_is_unicast(),
            IpAddress::Ipv6(addr) => addr.x_is_unicast(),
        }
    }

    /// Whether a packet to this address goes to many hosts of the link: it is
    /// multicast, or the IPv4 broadcast address.
    pub open spec fn for_many(self) -> bool {
        match self {
            IpAddress::Ipv4(addr) => addr.in_multicast() || addr == Ipv4Address::everyone(),
            IpAddress::Ipv6(addr) => addr.in_multicast(),
        }
    }

    /// Whether this is a multicast or broadcast address.
    pub fn is_for_many(&self) -> (r: bool)
        ensures
            r == self.for_many(),
    {
        match self {
            IpAddress::Ipv4(addr) => addr.is_multicast() || addr.is_broadcast(),
            IpAddress::Ipv6(addr) => addr.is_multicast(),
        }
    }
}

/// An IP address of either version with the length of its subnet's prefix.
#[derive(Clone, Copy, PartialEq, Eq, Structural, Debug)]
pub enum IpCidr {
    Ipv4(Ipv4Cidr),
    Ipv6(Ipv6Cidr),
}

impl IpCidr {
    /// The prefix is no longer than an address.
    pub open spec fn wf(self) -> bool {
        match self {
            IpCidr::Ipv4(cidr) => cidr.wf(),
            IpCidr::Ipv6(cidr) => cidr.wf(),
        }
    }

    /// The address.
    pub open spec fn addr(self) -> IpAddress {
        match self {
            IpCidr::Ipv4(cidr) => IpAddress::Ipv4(cidr.address),
            IpCidr::Ipv6(cidr) => IpAddress::Ipv6(cidr.address),
        }
    }

    /// The length of the prefix.
    pub open spec fn prefix(self) -> u8 {
        match self {
            IpCidr::Ipv4(cidr) => cidr.prefix_len,
            IpCidr::Ipv6(cidr) => cidr.prefix_len,
        }
    }

    /// Whether `addr` is in the subnet.
    pub open spec fn covers(self, addr: IpAddress) -> bool {
        match (self, addr) {
            (IpCidr::Ipv4(cidr), IpAddress::Ipv4(addr)) => cidr.covers(addr),
            (IpCidr::Ipv6(cidr), IpAddress::Ipv6(addr)) => cidr.covers(addr),
            _ => false,
        }
    }

    /// An address with its prefix length.
    pub fn new(address: IpAddress, prefix_len: u8) -> (cidr: IpCidr)
        requires
            prefix_len <= (if address is Ipv4 { 32u8 } else { 128u8 }),
        ensures
            cidr.addr() == address,
            cidr.prefix() == prefix_len,
            cidr.wf(),
    {
        match address {
            IpAddress::Ipv4(address) => IpCidr::Ipv4(Ipv4Cidr { address, prefix_len }),
            IpAddress::Ipv6(address) => IpCidr::Ipv6(Ipv6Cidr { address, prefix_len }),
        }
    }

    /// The address.
    pub fn address(&self) -> (addr: IpAddress)
        ensures
            addr == self.addr(),
    {
        match self {
            IpCidr::Ipv4(cidr) => IpAddress::Ipv4(cidr.address),
            IpCidr::Ipv6(cidr) => IpAddress::Ipv6(cidr.address),
        }
    }

    /// The length of the prefix.
    pub fn prefix_len(&self) -> (len: u8)
        ensures
            len == self.prefix(),
    {
        match self {
            IpCidr::Ipv4(cidr) => cidr.prefix_len,
            IpCidr::Ipv6(cidr) => cidr.prefix_len,
        }
    }

    /// Whether the subnet contains `addr`.
    pub fn contains_addr(&self, addr: &IpAddress) -> (r: bool)
        requires
            self.wf(),
        ensures
            r == self.covers(*addr),
    {
        match (self, addr) {
            (IpCidr::Ipv4(cidr), IpAddress::Ipv4(addr)) => cidr.contains_addr(addr),
            (IpCidr::Ipv6(cidr), IpAddress::Ipv6(addr)) => cidr.contains_addr(addr),
            _ => false,
        }
    }
}

/// An address and a port.
#[derive(Clone, Copy, PartialEq, Eq, Structural, Debug)]
pub struct IpEndpoint {
    pub addr: IpAddress,
    pub port: u16,
}

impl IpEndpoint {
    /// The endpoint with this address and port.
    pub fn new(addr: IpAddress, port: u16) -> (endpoint: IpEndpoint)
        ensures
            endpoint == (IpEndpoint { addr, port }),
    {
        IpEndpoint { addr, port }
    }
}

/// Which local addresses a listener takes.
#[derive(Clone, Copy, PartialEq, Eq, Structural, Debug)]
pub enum IpListenAddress {
    /// Any address of any version.
    Any,
    /// Any address of one version.
    Version(IpVersion),
    /// One address.
    Exact(IpAddress),
}

/// What a listener listens on: a set of local addresses, and a port.
#[derive(Clone, Copy, PartialEq, Eq, Structural, Debug)]
pub struct IpListenEndpoint {
    pub addr: IpListenAddress,
    pub port: u16,
}

impl IpListenEndpoint {
    /// Any address, and no port.
    pub open spec fn nothing() -> IpListenEndpoint {
        IpListenEndpoint { addr: IpListenAddress::Any, port: 0 }
    }

    /// The endpoint that stands for not listening: any address, and no port.
    pub fn unspecified() -> (endpoint: IpListenEndpoint)
        ensures
            endpoint == Self::nothing(),
    {
        IpListenEndpoint { addr: IpListenAddress::Any, port: 0 }
    }
}

} // verus!

//! Network interfaces.
//!
//! An interface is a driver added to a stack, together with its configuration:
//! hardware address, IP addresses, and whatever address autoconfiguration is
//! turned on for it.
//!
//! The autoconfiguration is [`slaac`], turned on per interface. An interface can
//! also hand out addresses itself, as a [`dhcpv4_server`].

pub mod access;
pub mod addr_laws;
pub mod dhcpv4_client_laws;
pub mod dhcpv4_fit;
pub mod dhcpv4_frame_laws;
pub mod dhcpv4_laws;
pub mod dhcpv4_leases;
pub mod dhcpv4_process;
pub mod dhcpv4_readback;
pub mod dhcpv4_server;
pub mod slaac;
pub mod slaac_laws;
pub mod slaac_learning_laws;
pub mod slaac_solicit;
pub mod slaac_sync;
pub mod slaac_sync_laws;
pub mod source_laws;
pub mod state;

pub use self::access::{Iface, IfaceIter};

use crate::time::Instant;
use crate::wire::{HardwareAddress, IpCidr, Ipv6Address, Ipv6Cidr};
use vstd::prelude::*;

verus! {

/// A handle to an interface added to a [`Stack`](crate::stack::Stack).
#[derive(Clone, Copy, PartialEq, Eq, Structural, Debug)]
pub struct IfaceHandle {
    pub index: usize,
}

impl IfaceHandle {
    /// The handle of the interface at `index`.
    pub fn new(index: usize) -> (handle: IfaceHandle)
        ensures
            handle.index == index,
    {
        IfaceHandle { index }
    }

    /// Where the interface is.
    pub fn index(self) -> (index: usize)
        ensures
            index == self.index,
    {
        self.index
    }
}

/// The interfaces a socket uses.
#[derive(Clone, Copy, PartialEq, Eq, Structural, Debug)]
pub enum IfaceBinding {
    /// Any interface.
    Any,
    /// One interface.
    Iface(IfaceHandle),
}

impl IfaceBinding {
    /// Whether the socket uses `iface`.
    pub open spec fn admits(self, iface: IfaceHandle) -> bool {
        match self {
            IfaceBinding::Any => true,
            IfaceBinding::Iface(bound) => bound == iface,
        }
    }

    /// The binding to one interface, or to none in particular.
    pub open spec fn of(iface: Option<IfaceHandle>) -> IfaceBinding {
        match iface {
            Some(iface) => IfaceBinding::Iface(iface),
            None => IfaceBinding::Any,
        }
    }

    /// The interface bound to, if it is one.
    pub open spec fn bound(self) -> Option<IfaceHandle> {
        match self {
            IfaceBinding::Any => None,
            IfaceBinding::Iface(iface) => Some(iface),
        }
    }

    /// The binding to one interface, or to none in particular.
    pub fn from_iface(iface: Option<IfaceHandle>) -> (binding: IfaceBinding)
        ensures
            binding == Self::of(iface),
    {
        match iface {
            Some(iface) => IfaceBinding::Iface(iface),
            None => IfaceBinding::Any,
        }
    }

    /// The interface bound to, if it is one.
    pub fn iface(&self) -> (iface: Option<IfaceHandle>)
        ensures
            iface == self.bound(),
    {
        match *self {
            IfaceBinding::Any => None,
            IfaceBinding::Iface(iface) => Some(iface),
        }
    }

    /// Whether the socket uses `iface`.
    pub fn matches(&self, iface: IfaceHandle) -> (r: bool)
        ensures
            r == self.admits(iface),
    {
        match *self {
            IfaceBinding::Any => true,
            IfaceBinding::Iface(bound) => bound == iface,
        }
    }

    /// How specific the match with `iface` is, if there is one: a binding to it
    /// beats no binding.
    pub open spec fn score(self, iface: IfaceHandle) -> Option<u8> {
        match self {
            IfaceBinding::Any => Some(0),
            IfaceBinding::Iface(bound) => if bound == iface {
                Some(4)
            } else {
                None
            },
        }
    }

    /// How specific the match with `iface` is, if there is one.
    pub fn match_score(&self, iface: IfaceHandle) -> (score: Option<u8>)
        ensures
            score == self.score(iface),
    {
        match *self {
            IfaceBinding::Any => Some(0),
            IfaceBinding::Iface(bound) => if bound == iface {
                Some(4)
            } else {
                None
            },
        }
    }
}

/// Type of medium of an interface.
#[derive(Clone, Copy, PartialEq, Eq, Structural, Debug)]
pub enum Medium {
    /// Ethernet medium. Devices of this type send and receive Ethernet frames.
    Ethernet,
    /// IP medium. Devices of this type send and receive IP frames, without an
    /// Ethernet header. MAC addresses are not used.
    Ip,
    /// IEEE 802.15.4 medium. Devices of this type send and receive 802.15.4
    /// MAC frames carrying 6LoWPAN.
    Ieee802154,
}

impl Medium {
    /// The medium a driver reports for this one.
    pub open spec fn for_driver(self) -> crate::driver::Medium {
        match self {
            Medium::Ethernet => crate::driver::Medium::Ethernet,
            Medium::Ip => crate::driver::Medium::Ip,
            Medium::Ieee802154 => crate::driver::Medium::Ieee802154,
        }
    }

    /// The stack's own medium for the one a driver reports.
    pub fn from_driver(medium: crate::driver::Medium) -> (own: Option<Medium>)
        ensures
            own matches Some(own) && own.for_driver() == medium,
    {
        match medium {
            crate::driver::Medium::Ethernet => Some(Medium::Ethernet),
            crate::driver::Medium::Ip => Some(Medium::Ip),
            crate::driver::Medium::Ieee802154 => Some(Medium::Ieee802154),
        }
    }
}

impl From<Medium> for crate::driver::Medium {
    fn from(medium: Medium) -> (reported: Self) {
        match medium {
            Medium::Ethernet => crate::driver::Medium::Ethernet,
            Medium::Ip => crate::driver::Medium::Ip,
            Medium::Ieee802154 => crate::driver::Medium::Ieee802154,
        }
    }
}

impl vstd::std_specs::convert::FromSpecImpl<Medium> for crate::driver::Medium {
    open spec fn obeys_from_spec() -> bool {
        true
    }

    open spec fn from_spec(medium: Medium) -> Self {
        medium.for_driver()
    }
}

/// Where an interface address came from.
#[derive(Clone, Copy, PartialEq, Eq, Structural, Debug)]
#[non_exhaustive]
pub enum AddrOrigin {
    /// Assigned by the application.
    Manual,
    /// Learned from a DHCPv4 lease.
    Dhcpv4,
    /// The IPv6 link-local address the stack derives from the hardware address.
    LinkLocal,
    /// Formed by SLAAC from a router-advertised prefix.
    Slaac,
}

/// An IP address assigned to an interface.
#[derive(Clone, Copy, PartialEq, Eq, Structural, Debug)]
#[non_exhaustive]
pub struct IfaceAddr {
    /// The address and its prefix.
    pub cidr: IpCidr,
    /// Where the address came from.
    pub origin: AddrOrigin,
    /// When the address stops being preferred and becomes deprecated
    /// (RFC 4862 section 5.5.4). `None` means "forever".
    ///
    /// Only SLAAC sets this: a router advertises a preferred lifetime alongside
    /// the valid one, and shortens it to zero to signal that a prefix is on its
    /// way out while addresses formed from it still work.
    pub preferred_until: Option<Instant>,
}

impl IfaceAddr {
    /// An address assigned by the application.
    pub open spec fn by_hand(cidr: IpCidr) -> IfaceAddr {
        IfaceAddr { cidr, origin: AddrOrigin::Manual, preferred_until: None }
    }

    /// Whether the address is still preferred.
    pub open spec fn preferred(self, now: Instant) -> bool {
        self.preferred_until matches Some(until) ==> until.micros > now.micros
    }

    /// An address assigned by the application.
    pub fn manual(cidr: IpCidr) -> (addr: IfaceAddr)
        ensures
            addr == Self::by_hand(cidr),
    {
        IfaceAddr { cidr, origin: AddrOrigin::Manual, preferred_until: None }
    }

    /// Whether the address is still preferred, i.e. not deprecated.
    ///
    /// A deprecated address keeps working for connections that already use it,
    /// but is avoided when a source address is chosen for a new one.
    pub fn is_preferred(&self, now: Instant) -> (r: bool)
        ensures
            r == self.preferred(now),
    {
        match self.preferred_until {
            Some(until) => until.micros > now.micros,
            None => true,
        }
    }
}

/// The IPv6 address with the given first and second half.
pub open spec fn ipv6_from_halves(first: int, second: int) -> Ipv6Address {
    Ipv6Address { bits: (first * 0x1_0000_0000_0000_0000 + second) as u128 }
}

/// The first half of an IPv6 address.
pub open spec fn first_half(addr: Ipv6Address) -> int {
    addr.bits as int / 0x1_0000_0000_0000_0000
}

/// The IPv6 link-local address of a hardware address: `fe80::/64` and its modified
/// EUI-64.
pub open spec fn link_local_of(hardware_addr: HardwareAddress) -> Option<IfaceAddr> {
    match hardware_addr.eui_64() {
        Some(id) => Some(
            IfaceAddr {
                cidr: IpCidr::Ipv6(
                    Ipv6Cidr {
                        address: ipv6_from_halves(0xfe80_0000_0000_0000, id),
                        prefix_len: 64,
                    },
                ),
                origin: AddrOrigin::LinkLocal,
                preferred_until: None,
            },
        ),
        None => None,
    }
}

/// The IPv6 link-local address derived from a hardware address (RFC 4291 section
/// 2.5.1, modified EUI-64; RFC 4944 section 6 for an extended 802.15.4 address).
pub fn link_local_addr(hardware_addr: HardwareAddress) -> (addr: Option<IfaceAddr>)
    ensures
        addr == link_local_of(hardware_addr),
{
    match hardware_addr.as_eui_64() {
        Some(id) => Some(
            IfaceAddr {
                cidr: IpCidr::Ipv6(
                    Ipv6Cidr {
                        address: Ipv6Address {
                            bits: 0xfe80_0000_0000_0000u128 * 0x1_0000_0000_0000_0000 + id as u128,
                        },
                        prefix_len: 64,
                    },
                ),
                origin: AddrOrigin::LinkLocal,
                preferred_until: None,
            },
        ),
        None => None,
    }
}

/// A derived link-local address is link-local.
pub proof fn link_local_of_is_link_local(hardware_addr: HardwareAddress)
    ensures
        link_local_of(hardware_addr) matches Some(addr) ==> (addr.cidr matches IpCidr::Ipv6(cidr)
            && cidr.wf() && cidr.address.link_local()),
{
    match hardware_addr {
        HardwareAddress::Ethernet(addr) => {},
        HardwareAddress::Ieee802154(crate::wire::Ieee802154Address::Extended(addr)) => {},
        _ => {},
    }
}

} // verus!

//! The state of an interface.

use super::dhcpv4_leases::LeaseView;
use super::dhcpv4_server::{DhcpServerConfig, Server};
use super::slaac::{Slaac, SlaacView};
use super::{
    link_local_addr, link_local_of, link_local_of_is_link_local, IfaceAddr, IfaceHandle, Medium,
};
use crate::config::{IFACE_ADDR_COUNT, PACKET_BUF_SIZE};
use crate::driver::{
    CallLog, Capabilities, ChecksumCapabilities, Driver, DriverCall, LinkState, Packet, PacketBuf,
};
use crate::lists::{lemma_position, lemma_position_is, lemma_position_none, position};
use crate::storage::BoundedVec;
use crate::time::Instant;
use crate::waker::{WakerRegistration, WakerView};
use crate::wire::ethernet::{build_ethernet_header, ethernet_header};
use crate::wire::{
    EthernetAddress, EthernetProtocol, HardwareAddress, Ieee802154Address, IpAddress, IpCidr,
    Ipv4Address, Ipv4Cidr, Ipv6Address, Ipv6Cidr, Ipv6MulticastScope, ETHERNET_HEADER_LEN,
    LINK_HEADER_LEN,
};
use vstd::prelude::*;

verus! {

/// An interface added to the stack, with its configuration.
pub struct IfaceState<D> {
    pub handle: IfaceHandle,
    pub driver: D,
    /// The calls that were made to the driver.
    pub calls: CallLog,
    /// The driver's medium, converted and checked when the interface is added.
    pub medium: Medium,
    /// The driver's capabilities, read when the interface is added.
    pub caps: Capabilities,
    pub hardware_addr: HardwareAddress,
    pub ip_addrs: BoundedVec<IfaceAddr, IFACE_ADDR_COUNT>,
    /// Bumped whenever the interface's addresses or routes change.
    pub config_generation: u32,
    /// Woken on a link state change and on a configuration change.
    pub waker: WakerRegistration,
    pub dhcpv4_server: Option<Server>,
    pub slaac: Option<Slaac>,
    /// Link state at the previous poll, for spotting a change.
    pub last_link_state: LinkState,
    /// Whether fragments of a packet are still going out.
    pub fragments_pending: bool,
}

/// The state of a DHCP server.
#[verifier::ext_equal]
pub struct ServerView {
    pub config: DhcpServerConfig,
    pub leases: Seq<LeaseView>,
}

/// The state of an interface, with the calls made to its driver.
#[verifier::ext_equal]
pub struct IfaceView {
    pub handle: IfaceHandle,
    pub medium: Medium,
    pub caps: Capabilities,
    pub hardware_addr: HardwareAddress,
    pub ip_addrs: Seq<IfaceAddr>,
    pub config_generation: u32,
    pub waker: WakerView,
    pub dhcpv4_server: Option<ServerView>,
    pub slaac: Option<SlaacView>,
    pub last_link_state: LinkState,
    pub fragments_pending: bool,
    pub calls: Seq<DriverCall>,
}

/// The state of a server, if there is one.
pub open spec fn server_view(server: Option<Server>) -> Option<ServerView> {
    match server {
        Some(server) => Some(ServerView { config: server.config, leases: server.leases@ }),
        None => None,
    }
}

/// The state of SLAAC, if it is on.
pub open spec fn slaac_view(slaac: Option<Slaac>) -> Option<SlaacView> {
    match slaac {
        Some(slaac) => Some(slaac@),
        None => None,
    }
}

impl<D> View for IfaceState<D> {
    type V = IfaceView;

    open spec fn view(&self) -> IfaceView {
        IfaceView {
            handle: self.handle,
            medium: self.medium,
            caps: self.caps,
            hardware_addr: self.hardware_addr,
            ip_addrs: self.ip_addrs@,
            config_generation: self.config_generation,
            waker: self.waker@,
            dhcpv4_server: server_view(self.dhcpv4_server),
            slaac: slaac_view(self.slaac),
            last_link_state: self.last_link_state,
            fragments_pending: self.fragments_pending,
            calls: self.calls@,
        }
    }
}

/// Whether the addresses fit in the table of an interface, and every one has a prefix
/// no longer than itself.
pub open spec fn addrs_wf(addrs: Seq<IfaceAddr>) -> bool {
    &&& addrs.len() <= IFACE_ADDR_COUNT
    &&& forall|i: int| 0 <= i < addrs.len() ==> (#[trigger] addrs[i]).cidr.wf()
}

/// Whether `addr` is one of the addresses.
pub open spec fn addr_assigned(addrs: Seq<IfaceAddr>, addr: IpAddress) -> bool {
    exists|i: int| 0 <= i < addrs.len() && (#[trigger] addrs[i]).cidr.addr() == addr
}

/// Whether `addr` is in the subnet of one of the addresses.
pub open spec fn addr_on_link(addrs: Seq<IfaceAddr>, addr: IpAddress) -> bool {
    exists|i: int| 0 <= i < addrs.len() && (#[trigger] addrs[i]).cidr.covers(addr)
}

/// Whether the address is an IPv4 one.
pub open spec fn is_ipv4() -> spec_fn(IfaceAddr) -> bool {
    |addr: IfaceAddr| addr.cidr is Ipv4
}

/// Whether the address is an IPv6 one.
pub open spec fn is_ipv6() -> spec_fn(IfaceAddr) -> bool {
    |addr: IfaceAddr| addr.cidr is Ipv6
}

/// Whether the address is an IPv4 one whose subnet `dst` is in.
pub open spec fn is_ipv4_near(dst: Ipv4Address) -> spec_fn(IfaceAddr) -> bool {
    |addr: IfaceAddr| addr.cidr matches IpCidr::Ipv4(cidr) && cidr.covers(dst)
}

/// Whether the address is a link-local IPv6 one.
pub open spec fn is_link_local_ipv6() -> spec_fn(IfaceAddr) -> bool {
    |addr: IfaceAddr| addr.cidr matches IpCidr::Ipv6(cidr) && cidr.address.link_local()
}

/// The first IPv4 subnet of the interface.
pub open spec fn first_ipv4_cidr(addrs: Seq<IfaceAddr>) -> Option<Ipv4Cidr> {
    match position(addrs, is_ipv4()) {
        Some(i) => Some(addrs[i].cidr->Ipv4_0),
        None => None,
    }
}

/// The IPv4 source address for a destination: the first one of the same subnet,
/// else the first one.
pub open spec fn source_ipv4(addrs: Seq<IfaceAddr>, dst: Ipv4Address) -> Option<Ipv4Address> {
    match position(addrs, is_ipv4_near(dst)) {
        Some(i) => Some(addrs[i].cidr->Ipv4_0.address),
        None => match first_ipv4_cidr(addrs) {
            Some(cidr) => Some(cidr.address),
            None => None,
        },
    }
}

/// The first link-local IPv6 address of the interface.
pub open spec fn link_local_ipv6(addrs: Seq<IfaceAddr>) -> Option<Ipv6Address> {
    match position(addrs, is_link_local_ipv6()) {
        Some(i) => Some(addrs[i].cidr->Ipv6_0.address),
        None => None,
    }
}

/// Whether the address is the broadcast address of one of the IPv4 subnets, or
/// the limited broadcast address.
pub open spec fn broadcast_ipv4(addrs: Seq<IfaceAddr>, addr: Ipv4Address) -> bool {
    addr == Ipv4Address::everyone() || exists|i: int|
        0 <= i < addrs.len() && ((#[trigger] addrs[i]).cidr matches IpCidr::Ipv4(cidr)
            && cidr.broadcast_addr() == Some(addr))
}

/// Whether `addr` is the solicited-node multicast address of one of the addresses
/// (RFC 4291 section 2.7.1): it has the same low 24 bits. The loopback address has
/// none.
pub open spec fn solicited_node_of(addrs: Seq<IfaceAddr>, addr: Ipv6Address) -> bool {
    addr.solicited_node() && exists|i: int|
        0 <= i < addrs.len() && ((#[trigger] addrs[i]).cidr matches IpCidr::Ipv6(cidr)
            && cidr.address != Ipv6Address::loopback() && addr.bits % 0x100_0000
            == cidr.address.bits % 0x100_0000)
}

/// Whether the interface listens to a multicast address.
pub open spec fn listens_to(addrs: Seq<IfaceAddr>, addr: IpAddress) -> bool {
    match addr {
        IpAddress::Ipv4(addr) => addr == Ipv4Address::all_systems_group(),
        IpAddress::Ipv6(addr) => addr == Ipv6Address::all_nodes() || solicited_node_of(addrs, addr),
    }
}

/// Whether `src` may be a source address for `dst` at all (RFC 6724 section 4).
pub open spec fn is_candidate_source(dst: Ipv6Address, src: Ipv6Address) -> bool {
    &&& dst.link_local() ==> src.link_local()
    &&& src != Ipv6Address::any()
    &&& !src.in_multicast()
}

/// How many bits of its prefix an address shares with `dst` (RFC 6724 section
/// 2.2).
pub open spec fn common_prefix_length(cidr: Ipv6Cidr, dst: Ipv6Address) -> int {
    let bits = cidr.address.common_bits(dst);
    if bits < cidr.prefix_len {
        bits
    } else {
        cidr.prefix_len as int
    }
}

/// Whether `addr` is a better source address for `dst` than `candidate` (RFC 6724
/// section 5). The first rule that tells the two apart decides.
pub open spec fn is_better_source(
    candidate: IfaceAddr,
    addr: IfaceAddr,
    dst: Ipv6Address,
    now: Instant,
) -> bool {
    let old_cidr = candidate.cidr->Ipv6_0;
    let new_cidr = addr.cidr->Ipv6_0;
    let old_scope = old_cidr.address.scope().number();
    let new_scope = new_cidr.address.scope().number();
    let dst_scope = dst.scope().number();
    if new_cidr.address == dst {
        // Rule 1: prefer the destination address itself.
        true
    } else if old_cidr.address == dst {
        false
    } else if new_scope < old_scope {
        // Rule 2: prefer appropriate scope.
        new_scope >= dst_scope
    } else if new_scope > old_scope {
        old_scope < dst_scope
    } else if candidate.preferred(now) != addr.preferred(now) {
        // Rule 3: avoid deprecated addresses.
        addr.preferred(now)
    } else {
        // Rule 8: use the longest matching prefix.
        common_prefix_length(new_cidr, dst) > common_prefix_length(old_cidr, dst)
    }
}

/// The address left when each of `addrs` in turn has had the chance to replace
/// `start` by being a better source address.
pub open spec fn best_source(
    start: IfaceAddr,
    addrs: Seq<IfaceAddr>,
    dst: Ipv6Address,
    now: Instant,
) -> IfaceAddr
    decreases addrs.len(),
{
    if addrs.len() == 0 {
        start
    } else {
        let best = best_source(start, addrs.drop_last(), dst, now);
        let addr = addrs.last();
        if addr.cidr is Ipv6 && is_candidate_source(dst, addr.cidr->Ipv6_0.address)
            && is_better_source(best, addr, dst, now) {
            addr
        } else {
            best
        }
    }
}

/// The IPv6 source address for a destination. It is the loopback address if the
/// destination is, or if the interface has no IPv6 address.
pub open spec fn source_ipv6(addrs: Seq<IfaceAddr>, dst: Ipv6Address, now: Instant) -> Ipv6Address {
    if dst == Ipv6Address::loopback() {
        Ipv6Address::loopback()
    } else {
        match position(addrs, is_ipv6()) {
            Some(i) => best_source(addrs[i], addrs, dst, now).cidr->Ipv6_0.address,
            None => Ipv6Address::loopback(),
        }
    }
}

impl IfaceView {
    /// The hardware address is of the kind the medium uses, a frame has room for
    /// its header, tables hold no more than they have room for, and prefixes are no
    /// longer than addresses. Only an Ethernet interface has a DHCP server.
    pub open spec fn wf(self) -> bool {
        &&& self.hardware_addr.used_on() == self.medium
        &&& self.medium == Medium::Ethernet ==> self.caps.max_transmission_unit
            >= ETHERNET_HEADER_LEN
        &&& addrs_wf(self.ip_addrs)
        &&& self.dhcpv4_server is Some ==> self.medium == Medium::Ethernet
        &&& self.slaac matches Some(slaac) ==> slaac.wf()
    }

    /// An interface that was just added. It has the link-local address of its
    /// hardware address, if that has one.
    pub open spec fn added(
        handle: IfaceHandle,
        caps: Capabilities,
        hardware_addr: HardwareAddress,
    ) -> IfaceView {
        IfaceView {
            handle,
            medium: hardware_addr.used_on(),
            caps,
            hardware_addr,
            ip_addrs: match link_local_of(hardware_addr) {
                Some(addr) => seq![addr],
                None => Seq::empty(),
            },
            config_generation: 0,
            waker: WakerView::unused(),
            dhcpv4_server: None,
            slaac: None,
            last_link_state: LinkState::Down,
            fragments_pending: false,
            calls: Seq::empty(),
        }
    }

    /// The configuration changed: the generation goes up, and who waits for that
    /// is woken.
    pub open spec fn changed(self) -> IfaceView {
        IfaceView {
            config_generation: ((self.config_generation + 1) % 0x1_0000_0000) as u32,
            waker: self.waker.fired(),
            ..self
        }
    }

    /// A call was made to the driver.
    pub open spec fn called(self, call: DriverCall) -> IfaceView {
        IfaceView { calls: self.calls.push(call), ..self }
    }

    /// The longest IP packet the device takes: its frames without the link-layer
    /// header.
    pub open spec fn device_ip_mtu(self) -> int {
        match self.medium {
            Medium::Ethernet => self.caps.max_transmission_unit - ETHERNET_HEADER_LEN,
            Medium::Ip => self.caps.max_transmission_unit as int,
            Medium::Ieee802154 => self.caps.lowpan_ip_mtu as int,
        }
    }

    /// The IP-layer MTU: what the device takes, as far as a packet buffer can
    /// carry it behind a link-layer header.
    pub open spec fn mtu(self) -> int {
        if self.device_ip_mtu() < PACKET_BUF_SIZE - LINK_HEADER_LEN {
            self.device_ip_mtu()
        } else {
            PACKET_BUF_SIZE - LINK_HEADER_LEN
        }
    }
}

impl<D> IfaceState<D> {
    /// The interface's medium.
    pub fn medium(&self) -> (medium: Medium)
        ensures
            medium == self@.medium,
    {
        self.medium
    }

    /// Which checksums the device computes and verifies itself, so the stack
    /// doesn't do it in software.
    pub fn checksum_caps(&self) -> (caps: ChecksumCapabilities)
        ensures
            caps == self@.caps.checksum,
    {
        self.caps.checksum
    }

    /// Whether the interface's medium has link-layer addresses, and so does
    /// neighbor discovery (Ethernet and IEEE 802.15.4).
    pub fn has_link_layer(&self) -> (r: bool)
        ensures
            r == (self@.medium != Medium::Ip),
    {
        match self.medium {
            Medium::Ethernet => true,
            Medium::Ieee802154 => true,
            Medium::Ip => false,
        }
    }

    /// The interface's IEEE 802.15.4 address.
    pub fn ieee802154_addr(&self) -> (addr: Ieee802154Address)
        requires
            self@.hardware_addr is Ieee802154,
        ensures
            self@.hardware_addr == HardwareAddress::Ieee802154(addr),
    {
        match self.hardware_addr {
            HardwareAddress::Ieee802154(addr) => addr,
            _ => vstd::pervasive::unreached(),
        }
    }

    /// The interface's Ethernet address.
    pub fn ethernet_addr(&self) -> (addr: EthernetAddress)
        requires
            self@.hardware_addr is Ethernet,
        ensures
            self@.hardware_addr == HardwareAddress::Ethernet(addr),
    {
        match self.hardware_addr {
            HardwareAddress::Ethernet(addr) => addr,
            _ => vstd::pervasive::unreached(),
        }
    }

    /// Note that the interface's configuration changed: bump the generation and
    /// wake whoever is waiting for it.
    pub fn config_changed(&mut self)
        ensures
            final(self)@ == old(self)@.changed(),
    {
        self.config_generation = if self.config_generation == u32::MAX {
            0
        } else {
            self.config_generation + 1
        };
        self.waker.wake();
    }

    /// The interface's IP-layer MTU: the device MTU minus the Ethernet header on
    /// Ethernet mediums, clamped to what a packet buffer can carry once the
    /// link-layer headroom egress reserves is taken out.
    pub fn ip_mtu(&self) -> (mtu: usize)
        requires
            self@.wf(),
        ensures
            mtu == self@.mtu(),
    {
        let mtu: usize = match self.medium {
            Medium::Ethernet => self.caps.max_transmission_unit - ETHERNET_HEADER_LEN,
            Medium::Ip => self.caps.max_transmission_unit,
            Medium::Ieee802154 => self.caps.lowpan_ip_mtu,
        };
        if mtu < PACKET_BUF_SIZE - LINK_HEADER_LEN {
            mtu
        } else {
            PACKET_BUF_SIZE - LINK_HEADER_LEN
        }
    }

    /// The assigned addresses, without their origin.
    pub fn cidrs(&self) -> (cidrs: Vec<IpCidr>)
        ensures
            cidrs@ == self@.ip_addrs.map_values(|addr: IfaceAddr| addr.cidr),
    {
        let mut cidrs: Vec<IpCidr> = Vec::new();
        let mut index: usize = 0;
        while index < self.ip_addrs.len()
            invariant
                index <= self.ip_addrs@.len(),
                cidrs@ == self.ip_addrs@.take(index as int).map_values(
                    |addr: IfaceAddr| addr.cidr,
                ),
            decreases self.ip_addrs@.len() - index,
        {
            cidrs.push(self.ip_addrs.get(index).cidr);
            index += 1;
            assert(cidrs@ =~= self.ip_addrs@.take(index as int).map_values(
                |addr: IfaceAddr| addr.cidr,
            ));
        }
        assert(self.ip_addrs@.take(index as int) =~= self.ip_addrs@);
        cidrs
    }

    /// Whether `addr` is assigned to the interface.
    pub fn has_ip_addr(&self, addr: IpAddress) -> (r: bool)
        ensures
            r == addr_assigned(self@.ip_addrs, addr),
    {
        let mut index: usize = 0;
        while index < self.ip_addrs.len()
            invariant
                index <= self.ip_addrs@.len(),
                forall|i: int|
                    0 <= i < index ==> (#[trigger] self.ip_addrs@[i]).cidr.addr() != addr,
            decreases self.ip_addrs@.len() - index,
        {
            if self.ip_addrs.get(index).cidr.address() == addr {
                return true;
            }
            index += 1;
        }
        false
    }

    /// Whether `addr` is in the subnet of one of the interface's addresses.
    pub fn in_same_network(&self, addr: &IpAddress) -> (r: bool)
        requires
            self@.wf(),
        ensures
            r == addr_on_link(self@.ip_addrs, *addr),
    {
        let mut index: usize = 0;
        while index < self.ip_addrs.len()
            invariant
                addrs_wf(self.ip_addrs@),
                index <= self.ip_addrs@.len(),
                forall|i: int|
                    0 <= i < index ==> !(#[trigger] self.ip_addrs@[i]).cidr.covers(*addr),
            decreases self.ip_addrs@.len() - index,
        {
            if self.ip_addrs.get(index).cidr.contains_addr(addr) {
                return true;
            }
            index += 1;
        }
        false
    }

    /// The first IPv4 subnet of the interface.
    pub fn first_ipv4(&self) -> (cidr: Option<Ipv4Cidr>)
        ensures
            cidr == first_ipv4_cidr(self@.ip_addrs),
            self@.wf() ==> (cidr matches Some(cidr) ==> cidr.wf()),
    {
        let mut index: usize = 0;
        while index < self.ip_addrs.len()
            invariant
                index <= self.ip_addrs@.len(),
                forall|i: int| 0 <= i < index ==> !is_ipv4()(#[trigger] self.ip_addrs@[i]),
            decreases self.ip_addrs@.len() - index,
        {
            if let IpCidr::Ipv4(cidr) = self.ip_addrs.get(index).cidr {
                proof {
                    lemma_position_is(self.ip_addrs@, is_ipv4(), index as int);
                    if self@.wf() {
                        assert(self.ip_addrs@[index as int].cidr.wf());
                    }
                }
                return Some(cidr);
            }
            index += 1;
        }
        proof {
            lemma_position_none(self.ip_addrs@, is_ipv4());
        }
        None
    }

    /// Get the first IPv4 address of the interface.
    pub fn ipv4_addr(&self) -> (addr: Option<Ipv4Address>)
        ensures
            addr == (match first_ipv4_cidr(self@.ip_addrs) {
                Some(cidr) => Some(cidr.address),
                None => None,
            }),
    {
        match self.first_ipv4() {
            Some(cidr) => Some(cidr.address()),
            None => None,
        }
    }

    /// Get an IPv4 source address based on a destination address.
    ///
    /// This function tries to find the first IPv4 address from the interface
    /// that is in the same subnet as the destination address. If no such
    /// address is found, the first IPv4 address from the interface is returned.
    pub fn get_source_address_ipv4(&self, dst_addr: &Ipv4Address) -> (addr: Option<Ipv4Address>)
        requires
            self@.wf(),
        ensures
            addr == source_ipv4(self@.ip_addrs, *dst_addr),
    {
        let ghost near = is_ipv4_near(*dst_addr);
        let mut index: usize = 0;
        while index < self.ip_addrs.len()
            invariant
                addrs_wf(self.ip_addrs@),
                near == is_ipv4_near(*dst_addr),
                index <= self.ip_addrs@.len(),
                forall|i: int| 0 <= i < index ==> !near(#[trigger] self.ip_addrs@[i]),
            decreases self.ip_addrs@.len() - index,
        {
            assert(self.ip_addrs@[index as int].cidr.wf());
            if let IpCidr::Ipv4(cidr) = self.ip_addrs.get(index).cidr {
                if cidr.contains_addr(dst_addr) {
                    proof {
                        lemma_position_is(self.ip_addrs@, near, index as int);
                    }
                    return Some(cidr.address());
                }
            }
            index += 1;
        }
        proof {
            lemma_position_none(self.ip_addrs@, near);
        }
        self.ipv4_addr()
    }

    /// Get a source address for the given destination address.
    pub fn get_source_address(&self, dst_addr: &IpAddress, now: Instant) -> (addr: Option<IpAddress>)
        requires
            self@.wf(),
            dst_addr is Ipv6 ==> !dst_addr.is_any(),
        ensures
            match *dst_addr {
                IpAddress::Ipv4(dst) => match source_ipv4(self@.ip_addrs, dst) {
                    Some(src) => addr == Some(IpAddress::Ipv4(src)),
                    None => addr is None,
                },
                IpAddress::Ipv6(dst) => addr == Some(
                    IpAddress::Ipv6(source_ipv6(self@.ip_addrs, dst, now)),
                ),
            },
    {
        match dst_addr {
            IpAddress::Ipv4(dst) => match self.get_source_address_ipv4(dst) {
                Some(src) => Some(IpAddress::Ipv4(src)),
                None => None,
            },
            IpAddress::Ipv6(dst) => Some(IpAddress::Ipv6(self.get_source_address_ipv6(dst, now))),
        }
    }

    /// Checks if an address is broadcast, taking into account ipv4 subnet-local
    /// broadcast addresses.
    pub fn is_broadcast(&self, address: &IpAddress) -> (r: bool)
        requires
            self@.wf(),
        ensures
            r == (address matches IpAddress::Ipv4(addr) && broadcast_ipv4(self@.ip_addrs, *addr)),
    {
        match address {
            IpAddress::Ipv4(address) => self.is_broadcast_v4(*address),
            IpAddress::Ipv6(_) => false,
        }
    }

    /// Checks if an address is broadcast, taking into account ipv4 subnet-local
    /// broadcast addresses.
    pub fn is_broadcast_v4(&self, address: Ipv4Address) -> (r: bool)
        requires
            self@.wf(),
        ensures
            r == broadcast_ipv4(self@.ip_addrs, address),
    {
        if address.is_broadcast() {
            return true;
        }
        let mut index: usize = 0;
        while index < self.ip_addrs.len()
            invariant
                addrs_wf(self.ip_addrs@),
                index <= self.ip_addrs@.len(),
                forall|i: int|
                    0 <= i < index ==> !((#[trigger] self.ip_addrs@[i]).cidr matches IpCidr::Ipv4(
                        cidr,
                    ) && cidr.broadcast_addr() == Some(address)),
            decreases self.ip_addrs@.len() - index,
        {
            assert(self.ip_addrs@[index as int].cidr.wf());
            if let IpCidr::Ipv4(cidr) = self.ip_addrs.get(index).cidr {
                if let Some(broadcast) = cidr.broadcast() {
                    if address == broadcast {
                        return true;
                    }
                }
            }
            index += 1;
        }
        false
    }

    /// Checks if an ipv4 address is unicast, taking into account subnet broadcast addresses
    pub fn is_unicast_v4(&self, address: Ipv4Address) -> (r: bool)
        requires
            self@.wf(),
        ensures
            r == (address.unicast() && !broadcast_ipv4(self@.ip_addrs, address)),
    {
        address.x_is_unicast() && !self.is_broadcast_v4(address)
    }

    /// Determine if the given address is the solicited node multicast address for
    /// an IPv6 address assigned to the interface. See RFC 4291 section 2.7.1 for
    /// more details.
    pub fn has_solicited_node(&self, addr: Ipv6Address) -> (r: bool)
        ensures
            r == solicited_node_of(self@.ip_addrs, addr),
    {
        if !addr.is_solicited_node_multicast() {
            return false;
        }
        let mut index: usize = 0;
        while index < self.ip_addrs.len()
            invariant
                addr.solicited_node(),
                index <= self.ip_addrs@.len(),
                forall|i: int|
                    0 <= i < index ==> !((#[trigger] self.ip_addrs@[i]).cidr matches IpCidr::Ipv6(
                        cidr,
                    ) && cidr.address != Ipv6Address::loopback() && addr.bits % 0x100_0000
                        == cidr.address.bits % 0x100_0000),
            decreases self.ip_addrs@.len() - index,
        {
            if let IpCidr::Ipv6(cidr) = self.ip_addrs.get(index).cidr {
                // The lower order 24 bits of the address, appended to
                // FF02:0:0:0:0:1:FF00::/104.
                if cidr.address() != Ipv6Address::localhost() && addr.bits % 0x100_0000
                    == cidr.address().bits % 0x100_0000 {
                    return true;
                }
            }
            index += 1;
        }
        false
    }

    /// Check whether the interface listens to given destination multicast IP address.
    pub fn has_multicast_group(&self, addr: IpAddress) -> (r: bool)
        ensures
            r == listens_to(self@.ip_addrs, addr),
    {
        match addr {
            IpAddress::Ipv4(key) => key == Ipv4Address::multicast_all_systems(),
            IpAddress::Ipv6(key) => key == Ipv6Address::link_local_all_nodes()
                || self.has_solicited_node(key),
        }
    }

    /// Get the first link-local IPv6 address of the interface, if present.
    pub fn link_local_ipv6_address(&self) -> (addr: Option<Ipv6Address>)
        ensures
            addr == link_local_ipv6(self@.ip_addrs),
    {
        let ghost p = is_link_local_ipv6();
        let mut index: usize = 0;
        while index < self.ip_addrs.len()
            invariant
                p == is_link_local_ipv6(),
                index <= self.ip_addrs@.len(),
                forall|i: int| 0 <= i < index ==> !p(#[trigger] self.ip_addrs@[i]),
            decreases self.ip_addrs@.len() - index,
        {
            if let IpCidr::Ipv6(cidr) = self.ip_addrs.get(index).cidr {
                if cidr.address().is_link_local() {
                    proof {
                        lemma_position_is(self.ip_addrs@, p, index as int);
                    }
                    return Some(cidr.address());
                }
            }
            index += 1;
        }
        proof {
            lemma_position_none(self.ip_addrs@, p);
        }
        None
    }

    /// Whether `src_addr` may be a source address for `dst_addr` at all. See RFC
    /// 6724 Section 4: Candidate source address.
    fn is_candidate_source_address(dst_addr: &Ipv6Address, src_addr: &Ipv6Address) -> (r: bool)
        ensures
            r == is_candidate_source(*dst_addr, *src_addr),
    {
        // For all multicast and link-local destination addresses, the candidate
        // address MUST only be an address from the same link.
        if dst_addr.is_link_local() && !src_addr.is_link_local() {
            return false;
        }
        if dst_addr.is_multicast() && dst_addr.x_multicast_scope() == Ipv6MulticastScope::LinkLocal
            && src_addr.is_multicast() && src_addr.x_multicast_scope()
            != Ipv6MulticastScope::LinkLocal {
            return false;
        }
        // Unspecified addresses and multicast address can not be in the candidate
        // source address list.
        if src_addr.is_unspecified() || src_addr.is_multicast() {
            return false;
        }
        true
    }

    /// How many bits of its prefix an address shares with `dst_addr`. See RFC 6724
    /// Section 2.2: Common Prefix Length.
    fn common_prefix_length(cidr: &Ipv6Cidr, dst_addr: &Ipv6Address) -> (bits: u8)
        ensures
            bits == common_prefix_length(*cidr, *dst_addr),
    {
        let bits: u8 = cidr.address().common_prefix(dst_addr);
        if bits < cidr.prefix_len() {
            bits
        } else {
            cidr.prefix_len()
        }
    }

    /// Whether `addr` is to be preferred over `candidate`. See RFC 6724 Section 5:
    /// Source Address Selection. The rules are a priority ordering, so the first
    /// one that tells the two candidates apart decides it.
    fn prefer(
        candidate: (&IfaceAddr, &Ipv6Cidr),
        addr: (&IfaceAddr, &Ipv6Cidr),
        dst_addr: &Ipv6Address,
        now: Instant,
    ) -> (r: bool)
        requires
            candidate.0.cidr == IpCidr::Ipv6(*candidate.1),
            addr.0.cidr == IpCidr::Ipv6(*addr.1),
        ensures
            r == is_better_source(*candidate.0, *addr.0, *dst_addr, now),
    {
        // Rule 1: prefer the address that is the same as the output destination address.
        if addr.1.address() == *dst_addr {
            return true;
        }
        if candidate.1.address() == *dst_addr {
            return false;
        }
        // Rule 2: prefer appropriate scope.

        let candidate_scope: u8 = candidate.1.address().x_multicast_scope().to_number();
        let addr_scope: u8 = addr.1.address().x_multicast_scope().to_number();
        let dst_scope: u8 = dst_addr.x_multicast_scope().to_number();
        if candidate_scope != addr_scope {
            return if addr_scope < candidate_scope {
                addr_scope >= dst_scope
            } else {
                candidate_scope < dst_scope
            };
        }
        // Rule 3: avoid deprecated addresses. A router retires a prefix by
        // advertising it with a preferred lifetime of zero while it stays valid,
        // so through a prefix rotation the outgoing address is still assigned and
        // still shares its leading bits with the destinations it used to reach.

        if candidate.0.is_preferred(now) != addr.0.is_preferred(now) {
            return addr.0.is_preferred(now);
        }
        // Rule 8: use longest matching prefix

        Self::common_prefix_length(addr.1, dst_addr) > Self::common_prefix_length(
            candidate.1,
            dst_addr,
        )
    }

    /// Return the IPv6 address that is a candidate source address for the given destination
    /// address, based on RFC 6724.
    pub fn get_source_address_ipv6(&self, dst_addr: &Ipv6Address, now: Instant) -> (addr:
        Ipv6Address)
        requires
            *dst_addr != Ipv6Address::any(),
        ensures
            addr == source_ipv6(self@.ip_addrs, *dst_addr, now),
    {
        // If the destination address is a loopback address, or when there are no
        // IPv6 addresses in the interface, then the loopback address is the only
        // candidate source address.
        if dst_addr.is_loopback() {
            return Ipv6Address::localhost();
        }
        let addrs = self.ip_addrs.as_slice();
        let mut first: usize = 0;
        while first < addrs.len() && !matches!(addrs[first].cidr, IpCidr::Ipv6(_))
            invariant
                addrs@ == self.ip_addrs@,
                first <= addrs@.len(),
                forall|i: int| 0 <= i < first ==> !is_ipv6()(#[trigger] addrs@[i]),
            decreases addrs@.len() - first,
        {
            first += 1;
        }
        if first >= addrs.len() {
            proof {
                lemma_position_none(addrs@, is_ipv6());
            }
            return Ipv6Address::localhost();
        }
        proof {
            lemma_position_is(addrs@, is_ipv6(), first as int);
        }
        let mut candidate: &IfaceAddr = &addrs[first];
        let mut index: usize = 0;
        assert(addrs@.take(0) =~= Seq::empty());
        while index < addrs.len()
            invariant
                index <= addrs@.len(),
                first < addrs@.len(),
                candidate.cidr is Ipv6,
                *candidate == best_source(
                    addrs@[first as int],
                    addrs@.take(index as int),
                    *dst_addr,
                    now,
                ),
            decreases addrs@.len() - index,
        {
            assert(addrs@.take(index + 1).drop_last() =~= addrs@.take(index as int));
            let addr = &addrs[index];
            if let IpCidr::Ipv6(cidr) = &addr.cidr {
                if Self::is_candidate_source_address(dst_addr, &cidr.address()) {
                    if let IpCidr::Ipv6(candidate_cidr) = &candidate.cidr {
                        if Self::prefer((candidate, candidate_cidr), (addr, cidr), dst_addr, now) {
                            candidate = addr;
                        }
                    }
                }
            }
            index += 1;
        }
        assert(addrs@.take(index as int) =~= addrs@);
        match candidate.cidr {
            IpCidr::Ipv6(cidr) => cidr.address(),
            IpCidr::Ipv4(_) => vstd::pervasive::unreached(),
        }
    }
}

impl<D: Driver> IfaceState<D> {
    /// An interface for a driver.
    pub fn new(
        handle: IfaceHandle,
        driver: D,
        caps: Capabilities,
        hardware_addr: HardwareAddress,
    ) -> (iface: IfaceState<D>)
        requires
            hardware_addr.used_on() == Medium::Ethernet ==> caps.max_transmission_unit
                >= ETHERNET_HEADER_LEN,
        ensures
            iface@ == IfaceView::added(handle, caps, hardware_addr),
            iface@.wf(),
            iface.driver == driver,
    {
        let mut ip_addrs: BoundedVec<IfaceAddr, IFACE_ADDR_COUNT> = BoundedVec::new();
        if let Some(addr) = link_local_addr(hardware_addr) {
            let pushed = ip_addrs.push(addr);
            assert(pushed is Ok);
        }
        proof {
            link_local_of_is_link_local(hardware_addr);
        }
        let iface = IfaceState {
            handle,
            driver,
            calls: CallLog::new(),
            medium: hardware_addr.medium(),
            caps,
            hardware_addr,
            ip_addrs,
            config_generation: 0,
            waker: WakerRegistration::new(),
            dhcpv4_server: None,
            slaac: None,
            last_link_state: LinkState::Down,
            fragments_pending: false,
        };
        assert(iface@.ip_addrs =~= IfaceView::added(handle, caps, hardware_addr).ip_addrs);
        iface
    }

    /// Whether the device can take one more frame right now.
    pub fn can_transmit(&mut self) -> (room: bool)
        ensures
            final(self)@ == old(self)@.called(DriverCall::CanTransmit(room)),
    {
        self.driver.can_transmit(&mut self.calls)
    }

    /// Whether a new packet can be handed to the interface right now.
    ///
    /// Unlike [`can_transmit`](Self::can_transmit), this is `false` while the
    /// fragments of a packet are still going out: they have first claim on the
    /// device, and a new packet would take their room.
    pub fn can_transmit_new_packet(&mut self) -> (room: bool)
        ensures
            old(self)@.fragments_pending ==> !room && final(self)@ == old(self)@,
            !old(self)@.fragments_pending ==> final(self)@ == old(self)@.called(
                DriverCall::CanTransmit(room),
            ),
    {
        if self.fragments_pending {
            return false;
        }
        self.can_transmit()
    }

    /// Send a packet in an Ethernet frame.
    pub fn transmit_ethernet(
        &mut self,
        dst: EthernetAddress,
        buf: PacketBuf,
        ethertype: EthernetProtocol,
    )
        requires
            old(self)@.hardware_addr is Ethernet,
            buf.wf(),
            buf.room() >= ETHERNET_HEADER_LEN,
        ensures
            final(self)@ == old(self)@.called(
                DriverCall::Transmit(
                    Packet {
                        bytes: ethernet_header(
                            dst,
                            old(self)@.hardware_addr->Ethernet_0,
                            ethertype,
                        ) + buf@.bytes,
                        ..buf@
                    },
                ),
            ),
    {
        let mut buf = buf;
        let header = build_ethernet_header(dst, self.ethernet_addr(), ethertype);
        buf.push_front(header.as_slice());
        self.driver.transmit(buf, &mut self.calls);
    }
}

/// Whoever remembers the generation of the configuration sees that it changed, and
/// the task that waits for a change is woken.
pub proof fn change_is_noticed(iface: IfaceView)
    ensures
        iface.changed().config_generation != iface.config_generation,
        iface.waker.waiting matches Some(waker) ==> iface.changed().waker.woken
            == iface.waker.woken.push(waker),
{
}

/// The MTU of an interface leaves room for a link-layer header in a packet buffer.
pub proof fn mtu_fits_in_a_packet_buffer(iface: IfaceView)
    requires
        iface.wf(),
    ensures
        0 <= iface.mtu() <= PACKET_BUF_SIZE - LINK_HEADER_LEN,
        iface.mtu() <= iface.device_ip_mtu(),
{
}

/// What was better than one address, and another address was not, the other one
/// is no better than.
proof fn lemma_better_source(
    worse: IfaceAddr,
    better: IfaceAddr,
    other: IfaceAddr,
    dst: Ipv6Address,
    now: Instant,
)
    requires
        is_better_source(worse, better, dst, now),
        !is_better_source(worse, other, dst, now),
    ensures
        !is_better_source(better, other, dst, now),
{
}

/// The address left is one of the addresses, and no address that may be a source
/// address is better than it, other than the destination itself.
proof fn lemma_best_source(
    start: IfaceAddr,
    addrs: Seq<IfaceAddr>,
    dst: Ipv6Address,
    now: Instant,
)
    requires
        start.cidr is Ipv6,
    ensures
        ({
            let best = best_source(start, addrs, dst, now);
            &&& best.cidr is Ipv6
            &&& best == start || addrs.contains(best)
            &&& forall|i: int|
                0 <= i < addrs.len() && (#[trigger] addrs[i]).cidr is Ipv6 && is_candidate_source(
                    dst,
                    addrs[i].cidr->Ipv6_0.address,
                ) ==> !is_better_source(best, addrs[i], dst, now) || best.cidr->Ipv6_0.address
                    == dst
        }),
    decreases addrs.len(),
{
    if addrs.len() > 0 {
        let rest = addrs.drop_last();
        lemma_best_source(start, rest, dst, now);
        let before = best_source(start, rest, dst, now);
        let best = best_source(start, addrs, dst, now);
        if rest.contains(before) {
            let k = choose|k: int| 0 <= k < rest.len() && rest[k] == before;
            assert(addrs[k] == before);
        }
        assert(addrs[addrs.len() - 1] == addrs.last());
        assert forall|i: int|
            0 <= i < addrs.len() && (#[trigger] addrs[i]).cidr is Ipv6 && is_candidate_source(
                dst,
                addrs[i].cidr->Ipv6_0.address,
            ) implies !is_better_source(best, addrs[i], dst, now) || best.cidr->Ipv6_0.address
            == dst by {
            if i < rest.len() {
                assert(rest[i] == addrs[i]);
                if best != before && before.cidr->Ipv6_0.address != dst {
                    lemma_better_source(before, best, addrs[i], dst, now);
                }
            }
        }
    }
}

/// The source address chosen for a destination is assigned to the interface, and
/// no address of the interface that may be used is better than it.
pub proof fn chosen_source_is_best(addrs: Seq<IfaceAddr>, dst: Ipv6Address, now: Instant)
    requires
        dst != Ipv6Address::loopback(),
        exists|i: int| 0 <= i < addrs.len() && (#[trigger] addrs[i]).cidr is Ipv6,
    ensures
        exists|k: int|
            0 <= k < addrs.len() && (#[trigger] addrs[k]).cidr is Ipv6
                && addrs[k].cidr->Ipv6_0.address == source_ipv6(addrs, dst, now) && (
            addrs[k].cidr->Ipv6_0.address == dst || forall|i: int|
                0 <= i < addrs.len() && (#[trigger] addrs[i]).cidr is Ipv6 && is_candidate_source(
                    dst,
                    addrs[i].cidr->Ipv6_0.address,
                ) ==> !is_better_source(addrs[k], addrs[i], dst, now)),
{
    lemma_position(addrs, is_ipv6());
    let first = position(addrs, is_ipv6());
    let some = choose|i: int| 0 <= i < addrs.len() && (#[trigger] addrs[i]).cidr is Ipv6;
    assert(is_ipv6()(addrs[some]));
    let start = addrs[first->0];
    lemma_best_source(start, addrs, dst, now);
    let best = best_source(start, addrs, dst, now);
    if best == start {
        assert(addrs[first->0].cidr is Ipv6);
    } else {
        let k = choose|k: int| 0 <= k < addrs.len() && addrs[k] == best;
        assert(addrs[k].cidr is Ipv6);
    }
}

/// A packet to one of the interface's own unicast addresses is sent from that
/// address.
pub proof fn own_address_is_its_source(
    addrs: Seq<IfaceAddr>,
    dst: Ipv6Address,
    now: Instant,
    own: int,
)
    requires
        dst.unicast(),
        0 <= own < addrs.len(),
        addrs[own].cidr matches IpCidr::Ipv6(cidr) && cidr.address == dst,
    ensures
        source_ipv6(addrs, dst, now) == dst,
{
    if dst != Ipv6Address::loopback() {
        assert(addrs[own].cidr is Ipv6);
        chosen_source_is_best(addrs, dst, now);
        let k = choose|k: int|
            0 <= k < addrs.len() && (#[trigger] addrs[k]).cidr is Ipv6
                && addrs[k].cidr->Ipv6_0.address == source_ipv6(addrs, dst, now) && (
            addrs[k].cidr->Ipv6_0.address == dst || forall|i: int|
                0 <= i < addrs.len() && (#[trigger] addrs[i]).cidr is Ipv6 && is_candidate_source(
                    dst,
                    addrs[i].cidr->Ipv6_0.address,
                ) ==> !is_better_source(addrs[k], addrs[i], dst, now));
        assert(is_candidate_source(dst, addrs[own].cidr->Ipv6_0.address));
        assert(is_better_source(addrs[k], addrs[own], dst, now));
    }
}

/// Of two addresses of the same scope, neither of them the destination, a
/// preferred one beats a deprecated one, however many bits that shares with the
/// destination.
pub proof fn preferred_source_beats_deprecated(
    deprecated: IfaceAddr,
    preferred: IfaceAddr,
    dst: Ipv6Address,
    now: Instant,
)
    requires
        deprecated.cidr is Ipv6,
        preferred.cidr is Ipv6,
        deprecated.cidr->Ipv6_0.address != dst,
        deprecated.cidr->Ipv6_0.address.scope() == preferred.cidr->Ipv6_0.address.scope(),
        !deprecated.preferred(now),
        preferred.preferred(now),
    ensures
        is_better_source(deprecated, preferred, dst, now),
        preferred.cidr->Ipv6_0.address != dst ==> !is_better_source(preferred, deprecated, dst, now),
{
}

} // verus!

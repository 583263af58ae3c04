//! DHCPv4 server.
//!
//! The server is part of an interface. Turn it on with
//! [`Iface::set_dhcpv4_server`] and it answers DHCP requests arriving on that
//! interface, handing out addresses from a configured pool. Inspect the leases
//! with [`Iface::dhcpv4_server_leases`] and remove one with
//! [`Iface::remove_dhcpv4_server_lease`].
//!
//! The interface must have an IPv4 address: it is the server's own address and
//! its subnet provides the subnet mask sent to clients. The pool must be inside
//! that subnet.
//!
//! Only Ethernet interfaces are supported. Requests relayed by a DHCP relay
//! agent are ignored, and offered addresses are not probed with ICMP before
//! being handed out (a client that detects a conflict declines the address,
//! which takes it out of the pool for a while).
//!
//! [`Iface::set_dhcpv4_server`]: super::Iface::set_dhcpv4_server
//! [`Iface::dhcpv4_server_leases`]: super::Iface::dhcpv4_server_leases
//! [`Iface::remove_dhcpv4_server_lease`]: super::Iface::remove_dhcpv4_server_lease

use super::dhcpv4_leases::{
    available_for, find_by_client, lease_views, longest_expired, ClientId, ClientIdView, LeaseTable,
    LeaseView,
};
use crate::config::{
    DHCP_MAX_DNS_SERVER_COUNT, DHCP_SERVER_CLIENT_ID_SIZE, DHCP_SERVER_LEASE_COUNT,
    PACKET_BUF_SIZE,
};
use crate::driver::{ChecksumCapabilities, PacketBuf, PacketPool};
use crate::lists::lemma_filter_drops;
use crate::time::{Duration, Instant};
use crate::wire::bytes::{be32, network_u32, put_u32, put_zeros, read_u32, u32_at, zeros};
use crate::wire::dhcpv4::{
    build_reply_header, option_bytes, put_option, reply_header, DhcpMessageType, DhcpOption,
    DhcpPacket, DhcpRequestView, DHCP_CLIENT_PORT, DHCP_SERVER_PORT, OPT_CLIENT_ID,
    OPT_DHCP_MESSAGE_TYPE, OPT_DOMAIN_NAME_SERVER, OPT_END, OPT_IP_LEASE_TIME, OPT_MESSAGE,
    OPT_REQUESTED_IP, OPT_ROUTER, OPT_SERVER_IDENTIFIER, OPT_SUBNET_MASK,
};
use crate::wire::udp::{build_udp_header, udp_datagram};
use crate::wire::{
    EthernetAddress, Ipv4Address, Ipv4Cidr, IPV4_HEADER_LEN, LINK_HEADER_LEN, UDP_HEADER_LEN,
};
use vstd::prelude::*;
use vstd::utf8::encode_utf8;

pub use super::dhcpv4_leases::{DhcpServerLease, DhcpServerLeaseState};

verus! {

/// How long an offered address is held back for the client it was offered to, in
/// seconds.
pub const OFFER_TIMEOUT: u64 = 60;

/// How long a declined address is kept out of the pool (RFC 2131 section 4.3.3),
/// in seconds.
pub const DECLINE_TIMEOUT: u64 = 600;

/// The shortest lease granted when a client asks for one (RFC 2132 section 9.2),
/// in seconds.
pub const MIN_LEASE_DURATION: u64 = 60;

/// BOOTP messages are at least this long (RFC 951); replies are padded to it,
/// since some clients drop shorter ones.
pub const MIN_MESSAGE_SIZE: usize = 300;

/// Configuration of the DHCP server, passed to
/// [`Iface::set_dhcpv4_server`](super::Iface::set_dhcpv4_server).
///
/// Start from [`DhcpServerConfig::new`] and change the fields you need.
#[derive(Debug)]
#[non_exhaustive]
pub struct DhcpServerConfig {
    /// First address of the pool leases are taken from.
    pub pool_start: Ipv4Address,
    /// Last address of the pool, inclusive.
    pub pool_end: Ipv4Address,
    /// How long a lease lasts. Clients asking for a shorter lease get it.
    pub lease_duration: Duration,
    /// The default gateway sent to clients, if any.
    pub gateway: Option<Ipv4Address>,
    /// The DNS servers sent to clients. Empty sends none.
    pub dns_servers: heapless::Vec<Ipv4Address, DHCP_MAX_DNS_SERVER_COUNT>,
    /// Extra options added to every OFFER and ACK.
    pub outgoing_options: &'static [DhcpOption<'static>],
}

/// The addresses in a list of `heapless`, in order.
pub uninterp spec fn listed_addresses(
    list: heapless::Vec<Ipv4Address, DHCP_MAX_DNS_SERVER_COUNT>,
) -> Seq<Ipv4Address>;

/// An empty list of addresses.
///
/// Calls `heapless::Vec::new`, which makes a list with nothing in it.
#[verifier::external_body]
fn new_address_list() -> (list: heapless::Vec<Ipv4Address, DHCP_MAX_DNS_SERVER_COUNT>)
    ensures
        listed_addresses(list) == Seq::<Ipv4Address>::empty(),
{
    heapless::Vec::new()
}

/// The addresses as a slice.
///
/// Calls `heapless::Vec::as_slice`, which gives the items in order. There are
/// never more than the capacity.
#[verifier::external_body]
fn address_slice(list: &heapless::Vec<Ipv4Address, DHCP_MAX_DNS_SERVER_COUNT>) -> (addrs:
    &[Ipv4Address])
    ensures
        addrs@ == listed_addresses(*list),
        addrs@.len() <= DHCP_MAX_DNS_SERVER_COUNT,
{
    list.as_slice()
}

/// A second list of the same addresses.
///
/// Calls `heapless::Vec::clone`, which clones the items one by one, in order. An
/// address is a copy of itself when cloned.
#[verifier::external_body]
fn copy_address_list(list: &heapless::Vec<Ipv4Address, DHCP_MAX_DNS_SERVER_COUNT>) -> (copy:
    heapless::Vec<Ipv4Address, DHCP_MAX_DNS_SERVER_COUNT>)
    ensures
        listed_addresses(copy) == listed_addresses(*list),
{
    list.clone()
}

impl Clone for DhcpServerConfig {
    fn clone(&self) -> (config: DhcpServerConfig)
        ensures
            config.pool_start == self.pool_start,
            config.pool_end == self.pool_end,
            config.lease_duration == self.lease_duration,
            config.gateway == self.gateway,
            listed_addresses(config.dns_servers) == listed_addresses(self.dns_servers),
            config.outgoing_options == self.outgoing_options,
    {
        DhcpServerConfig {
            pool_start: self.pool_start,
            pool_end: self.pool_end,
            lease_duration: self.lease_duration,
            gateway: self.gateway,
            dns_servers: copy_address_list(&self.dns_servers),
            outgoing_options: self.outgoing_options,
        }
    }
}

/// How many DNS servers are configured.
pub(crate) fn dns_server_count(config: &DhcpServerConfig) -> (count: usize)
    ensures
        count == listed_addresses(config.dns_servers).len(),
        count <= DHCP_MAX_DNS_SERVER_COUNT,
{
    address_slice(&config.dns_servers).len()
}

impl DhcpServerConfig {
    /// A configuration leasing addresses from `pool_start` to `pool_end`
    /// (inclusive) for one hour, with no gateway and no DNS servers.
    pub fn new(pool_start: Ipv4Address, pool_end: Ipv4Address) -> (config: DhcpServerConfig)
        ensures
            config.pool_start == pool_start,
            config.pool_end == pool_end,
            config.lease_duration == Duration::of_secs(3600),
            config.gateway is None,
            listed_addresses(config.dns_servers) == Seq::<Ipv4Address>::empty(),
            config.outgoing_options@.len() == 0,
    {
        DhcpServerConfig {
            pool_start,
            pool_end,
            lease_duration: Duration::from_secs(3600),
            gateway: None,
            dns_servers: new_address_list(),
            outgoing_options: &[],
        }
    }

    /// Whether `addr` is in the pool.
    pub open spec fn pools(self, addr: Ipv4Address) -> bool {
        self.pool_start.bits <= addr.bits <= self.pool_end.bits
    }
}

/// Whether `addr` can be leased at all: a unicast address of the served subnet
/// that is not the server's own, the network address, or the broadcast address.
pub open spec fn leasable(addr: Ipv4Address, server_cidr: Ipv4Cidr) -> bool {
    &&& addr.unicast()
    &&& server_cidr.covers(addr)
    &&& addr != server_cidr.address
    &&& addr != server_cidr.network_addr()
    &&& server_cidr.broadcast_addr() != Some(addr)
}

/// Whether `addr` can be leased at all: a unicast address of the served subnet
/// that is not the server's own, the network address, or the broadcast address.
pub fn addr_valid(addr: Ipv4Address, server_cidr: &Ipv4Cidr) -> (valid: bool)
    requires
        server_cidr.wf(),
    ensures
        valid == leasable(addr, *server_cidr),
{
    addr.x_is_unicast() && server_cidr.contains_addr(&addr) && addr != server_cidr.address()
        && addr != server_cidr.network().address() && match server_cidr.broadcast() {
        Some(broadcast) => addr != broadcast,
        None => true,
    }
}

/// The address in the first four bytes of an option.
pub open spec fn addr_in_option(data: Option<Seq<u8>>) -> Option<Ipv4Address> {
    match data {
        Some(data) => if data.len() >= 4 {
            Some(Ipv4Address { bits: u32_at(data, 0) as u32 })
        } else {
            None
        },
        None => None,
    }
}

/// The integer in the four bytes of an option.
pub open spec fn u32_in_option(data: Option<Seq<u8>>) -> Option<int> {
    match data {
        Some(data) => if data.len() == 4 {
            Some(u32_at(data, 0))
        } else {
            None
        },
        None => None,
    }
}

/// The address in the first four bytes of `data`.
pub fn parse_ipv4(data: &[u8]) -> (addr: Option<Ipv4Address>)
    ensures
        addr == addr_in_option(Some(data@)),
{
    if data.len() < 4 {
        None
    } else {
        Some(Ipv4Address { bits: read_u32(data, 0) })
    }
}

/// The integer in `data`, which has to be four bytes long.
pub fn parse_u32(data: &[u8]) -> (value: Option<u32>)
    ensures
        value is Some <==> u32_in_option(Some(data@)) is Some,
        value matches Some(v) ==> u32_in_option(Some(data@)) == Some(v as int),
{
    if data.len() == 4 {
        Some(network_u32(data))
    } else {
        None
    }
}

/// What identifies the client of a message: the client identifier it sent, if it
/// is not empty and short enough, else its hardware address.
pub open spec fn client_of(request: DhcpRequestView) -> ClientIdView {
    match request.client_id {
        Some(data) => if 0 < data.len() <= DHCP_SERVER_CLIENT_ID_SIZE {
            ClientIdView::Id(data)
        } else {
            ClientIdView::Hw(request.chaddr)
        },
        None => ClientIdView::Hw(request.chaddr),
    }
}

/// The lease duration a client asks for.
pub open spec fn requested_duration(request: DhcpRequestView) -> Option<Duration> {
    match u32_in_option(request.lease_time) {
        Some(secs) => Some(Duration::of_secs(secs)),
        None => None,
    }
}

/// What to answer a DHCPREQUEST with.
#[derive(Clone, Copy, Debug)]
pub enum Answer {
    Ack,
    Nak(&'static str),
    Silent,
}

/// A reply about to be built: the fields that vary between OFFER, ACK and NAK.
#[derive(Clone, Copy, Debug)]
pub struct Reply {
    pub message_type: DhcpMessageType,
    pub ciaddr: Ipv4Address,
    pub yiaddr: Ipv4Address,
    pub lease_duration: Option<Duration>,
    pub message: Option<&'static str>,
}

/// A refusal, with its reason.
pub open spec fn nak(reason: &'static str) -> Reply {
    Reply {
        message_type: DhcpMessageType::Nak,
        ciaddr: Ipv4Address::any(),
        yiaddr: Ipv4Address::any(),
        lease_duration: None,
        message: Some(reason),
    }
}

/// The table once a message of this client came in: its lease, if it has one, is
/// known to be of the hardware address the message came from.
pub open spec fn noted(
    t: Seq<LeaseView>,
    id: ClientIdView,
    chaddr: EthernetAddress,
) -> Seq<LeaseView> {
    match find_by_client(t, id) {
        Some(i) => t.update(i, LeaseView { hardware_addr: chaddr, ..t[i] }),
        None => t,
    }
}

/// The slot of the table for this client, and the table with it: its existing
/// lease, a fresh one, or one reclaimed from the longest-expired record. `None` if
/// every slot holds an active lease.
pub open spec fn entry_for(
    t: Seq<LeaseView>,
    id: ClientIdView,
    chaddr: EthernetAddress,
    now: Instant,
) -> Option<(Seq<LeaseView>, int)> {
    match find_by_client(t, id) {
        Some(i) => Some((t.update(i, LeaseView { hardware_addr: chaddr, ..t[i] }), i)),
        None => if t.len() < DHCP_SERVER_LEASE_COUNT {
            Some((t.push(LeaseView::fresh(id, chaddr)), t.len() as int))
        } else {
            match longest_expired(t, now) {
                Some(i) => Some((t.update(i, LeaseView::fresh(id, chaddr)), i)),
                None => None,
            }
        },
    }
}

/// Whether `addr` can be offered to the client.
pub open spec fn usable(
    config: DhcpServerConfig,
    t: Seq<LeaseView>,
    id: ClientIdView,
    addr: Ipv4Address,
    now: Instant,
    server_cidr: Ipv4Cidr,
) -> bool {
    config.pools(addr) && leasable(addr, server_cidr) && available_for(t, addr, id, now)
}

/// Whether `addr` is the first address of the pool that can be offered.
pub open spec fn is_first_usable(
    config: DhcpServerConfig,
    t: Seq<LeaseView>,
    id: ClientIdView,
    now: Instant,
    server_cidr: Ipv4Cidr,
    addr: Ipv4Address,
) -> bool {
    &&& usable(config, t, id, addr, now, server_cidr)
    &&& forall|lower: Ipv4Address|
        lower.bits < addr.bits ==> !(#[trigger] usable(config, t, id, lower, now, server_cidr))
}

/// The address chosen for a discovering client (RFC 2131 section 4.3.1): its
/// current or previous lease first, then the address it asks for, then the first
/// free address of the pool.
pub open spec fn pick_addr(
    config: DhcpServerConfig,
    t: Seq<LeaseView>,
    id: ClientIdView,
    requested: Option<Ipv4Address>,
    now: Instant,
    server_cidr: Ipv4Cidr,
) -> Option<Ipv4Address> {
    let own = find_by_client(t, id);
    if own is Some && usable(config, t, id, t[own->0].address, now, server_cidr) {
        Some(t[own->0].address)
    } else if requested is Some && usable(config, t, id, requested->0, now, server_cidr) {
        requested
    } else if exists|addr: Ipv4Address|
        is_first_usable(config, t, id, now, server_cidr, addr) {
        Some(
            choose|addr: Ipv4Address| is_first_usable(config, t, id, now, server_cidr, addr),
        )
    } else {
        None
    }
}

/// The lease duration to grant, honoring a shorter request (RFC 2131 section
/// 4.3.1), but not one shorter than the shortest lease.
pub open spec fn granted_duration(config: DhcpServerConfig, requested: Option<Duration>) -> Duration {
    match requested {
        Some(d) => {
            let at_least = if d.micros < Duration::of_secs(MIN_LEASE_DURATION as int).micros {
                Duration::of_secs(MIN_LEASE_DURATION as int)
            } else {
                d
            };
            if at_least.micros < config.lease_duration.micros {
                at_least
            } else {
                config.lease_duration
            }
        },
        None => config.lease_duration,
    }
}

/// Whether the lease is the running one of `addr`.
pub open spec fn is_running(lease: LeaseView, addr: Ipv4Address, now: Instant) -> bool {
    lease.state == DhcpServerLeaseState::Bound && lease.address == addr && lease.expires_at.micros
        > now.micros
}

/// The duration offered to a discovering client. A client with a running lease
/// that asks for no specific one is offered the time it has left (RFC 2131
/// section 4.3.1).
pub open spec fn offered_duration(
    config: DhcpServerConfig,
    t: Seq<LeaseView>,
    id: ClientIdView,
    requested: Option<Duration>,
    addr: Ipv4Address,
    now: Instant,
) -> Duration {
    let own = find_by_client(t, id);
    if own is Some && requested is None && is_running(t[own->0], addr, now) {
        Duration { micros: (t[own->0].expires_at.micros - now.micros) as u64 }
    } else {
        granted_duration(config, requested)
    }
}

/// The lease of a client that was offered `addr`. Offering a client its own
/// running lease does not shorten it.
pub open spec fn offered_lease(lease: LeaseView, addr: Ipv4Address, now: Instant) -> LeaseView {
    if is_running(lease, addr, now) {
        lease
    } else {
        LeaseView {
            state: DhcpServerLeaseState::Offered,
            address: addr,
            expires_at: now.plus(Duration::of_secs(OFFER_TIMEOUT as int)),
            ..lease
        }
    }
}

/// The lease table after a message, and the reply to it.
pub struct ServerStep {
    pub leases: Seq<LeaseView>,
    pub reply: Option<Reply>,
}

/// What a DISCOVER does.
pub open spec fn discover(
    config: DhcpServerConfig,
    leases: Seq<LeaseView>,
    now: Instant,
    server_cidr: Ipv4Cidr,
    request: DhcpRequestView,
) -> ServerStep {
    let id = client_of(request);
    let t = noted(leases, id, request.chaddr);
    match pick_addr(config, t, id, addr_in_option(request.requested_ip), now, server_cidr) {
        Some(addr) => match entry_for(t, id, request.chaddr, now) {
            Some((table, i)) => ServerStep {
                leases: table.update(i, offered_lease(table[i], addr, now)),
                reply: Some(
                    Reply {
                        message_type: DhcpMessageType::Offer,
                        ciaddr: Ipv4Address::any(),
                        yiaddr: addr,
                        lease_duration: Some(
                            offered_duration(config, t, id, requested_duration(request), addr, now),
                        ),
                        message: None,
                    },
                ),
            },
            None => ServerStep { leases: t, reply: None },
        },
        None => ServerStep { leases: t, reply: None },
    }
}

/// The address a requesting client claims, per its state (RFC 2131 section
/// 4.3.2): SELECTING and INIT-REBOOT put it in the requested-ip option, RENEWING
/// and REBINDING in ciaddr.
pub open spec fn claimed_addr(request: DhcpRequestView) -> Option<Ipv4Address> {
    match addr_in_option(request.requested_ip) {
        Some(addr) => Some(addr),
        None => if addr_in_option(request.server_id) is None && request.ciaddr
            != Ipv4Address::any() {
            Some(request.ciaddr)
        } else {
            None
        },
    }
}

/// The answer to a client that requests `addr` and did not select another server.
pub open spec fn answer_to(
    config: DhcpServerConfig,
    t: Seq<LeaseView>,
    now: Instant,
    server_cidr: Ipv4Cidr,
    request: DhcpRequestView,
    addr: Ipv4Address,
) -> Answer {
    let id = client_of(request);
    let selecting = addr_in_option(request.server_id) is Some;
    let init_reboot = !selecting && addr_in_option(request.requested_ip) is Some;
    if !leasable(addr, server_cidr) {
        // RFC 2131 section 4.3.2: the client is on the wrong network.
        Answer::Nak("requested address not on this network")
    } else {
        match find_by_client(t, id) {
            Some(i) => if t[i].address == addr && available_for(t, addr, id, now) {
                Answer::Ack
            } else {
                Answer::Nak("requested address does not match the lease")
            },
            // RFC 2131 section 4.3.2: a server with no record of an INIT-REBOOT
            // client must stay silent, another server may know it.
            None => if init_reboot {
                Answer::Silent
            } else if config.pools(addr) && available_for(t, addr, id, now) {
                // No record but the address is free and ours to give: this is how
                // leases survive a server reboot.
                Answer::Ack
            } else if selecting {
                // The chosen server must answer one way or the other.
                Answer::Nak("requested address is not available")
            } else if !config.pools(addr) {
                // A renewal of an address outside the pool is not ours to judge.
                Answer::Silent
            } else {
                Answer::Nak("requested address is in use")
            },
        }
    }
}

/// What a REQUEST does.
pub open spec fn request_step(
    config: DhcpServerConfig,
    leases: Seq<LeaseView>,
    now: Instant,
    server_cidr: Ipv4Cidr,
    request: DhcpRequestView,
) -> ServerStep {
    let id = client_of(request);
    let t = noted(leases, id, request.chaddr);
    let server_id = addr_in_option(request.server_id);
    if server_id is Some && server_id->0 != server_cidr.address {
        // The client selected another server (RFC 2131 section 3.1 step 4): what
        // it held with us is dead, only the record stays.
        match find_by_client(t, id) {
            Some(i) => ServerStep {
                leases: t.update(
                    i,
                    LeaseView {
                        state: DhcpServerLeaseState::Released,
                        expires_at: now,
                        ..t[i]
                    },
                ),
                reply: None,
            },
            None => ServerStep { leases: t, reply: None },
        }
    } else {
        match claimed_addr(request) {
            None => ServerStep { leases: t, reply: None },
            Some(addr) => match answer_to(config, t, now, server_cidr, request, addr) {
                Answer::Ack => grant(config, t, now, request, addr),
                Answer::Nak(reason) => ServerStep { leases: t, reply: Some(nak(reason)) },
                Answer::Silent => ServerStep { leases: t, reply: None },
            },
        }
    }
}

/// Commit `addr` to a requesting client. Stale records of previous holders of the
/// address are dropped.
pub open spec fn grant(
    config: DhcpServerConfig,
    t: Seq<LeaseView>,
    now: Instant,
    request: DhcpRequestView,
    addr: Ipv4Address,
) -> ServerStep {
    let id = client_of(request);
    let kept = t.filter(|lease: LeaseView| lease.outlives(addr, Some(id)));
    let duration = granted_duration(config, requested_duration(request));
    match entry_for(kept, id, request.chaddr, now) {
        Some((table, i)) => ServerStep {
            leases: table.update(
                i,
                LeaseView {
                    address: addr,
                    state: DhcpServerLeaseState::Bound,
                    expires_at: now.plus(duration),
                    ..table[i]
                },
            ),
            reply: Some(
                Reply {
                    message_type: DhcpMessageType::Ack,
                    ciaddr: request.ciaddr,
                    yiaddr: addr,
                    lease_duration: Some(duration),
                    message: None,
                },
            ),
        },
        None => ServerStep { leases: kept, reply: Some(nak("no free leases")) },
    }
}

/// What a DECLINE does: the address is in use by someone else (RFC 2131 section
/// 4.3.3), so it is held back.
pub open spec fn decline(
    leases: Seq<LeaseView>,
    now: Instant,
    request: DhcpRequestView,
) -> Seq<LeaseView> {
    let t = noted(leases, client_of(request), request.chaddr);
    let own = find_by_client(t, client_of(request));
    let addr = addr_in_option(request.requested_ip);
    if own is Some && addr is Some && t[own->0].address == addr->0 {
        t.update(
            own->0,
            LeaseView {
                state: DhcpServerLeaseState::Declined,
                expires_at: now.plus(Duration::of_secs(DECLINE_TIMEOUT as int)),
                ..t[own->0]
            },
        )
    } else {
        t
    }
}

/// What a RELEASE does: a running lease of the client's address is over.
pub open spec fn release(
    leases: Seq<LeaseView>,
    now: Instant,
    request: DhcpRequestView,
) -> Seq<LeaseView> {
    let t = noted(leases, client_of(request), request.chaddr);
    let own = find_by_client(t, client_of(request));
    if own is Some && t[own->0].address == request.ciaddr && t[own->0].active(now) {
        t.update(
            own->0,
            LeaseView { state: DhcpServerLeaseState::Released, expires_at: now, ..t[own->0] },
        )
    } else {
        t
    }
}

/// The reply to an INFORM (RFC 2131 section 4.3.5): configuration parameters only,
/// no lease time, no yiaddr, sent to ciaddr.
pub open spec fn inform(request: DhcpRequestView) -> Option<Reply> {
    if request.ciaddr == Ipv4Address::any() {
        None
    } else {
        Some(
            Reply {
                message_type: DhcpMessageType::Ack,
                ciaddr: request.ciaddr,
                yiaddr: Ipv4Address::any(),
                lease_duration: None,
                message: None,
            },
        )
    }
}

/// What a client's message does.
pub open spec fn server_step(
    config: DhcpServerConfig,
    t: Seq<LeaseView>,
    now: Instant,
    server_cidr: Ipv4Cidr,
    message_type: DhcpMessageType,
    request: DhcpRequestView,
) -> ServerStep {
    match message_type {
        DhcpMessageType::Discover => discover(config, t, now, server_cidr, request),
        DhcpMessageType::Request => request_step(config, t, now, server_cidr, request),
        DhcpMessageType::Decline => ServerStep { leases: decline(t, now, request), reply: None },
        DhcpMessageType::Release => ServerStep { leases: release(t, now, request), reply: None },
        DhcpMessageType::Inform => ServerStep {
            leases: noted(t, client_of(request), request.chaddr),
            reply: inform(request),
        },
        _ => ServerStep { leases: t, reply: None },
    }
}

/// For how long a DISCOVER gives its client's lease an address, if it does. A running
/// lease of the offered address keeps its end.
pub open spec fn offer_term(
    config: DhcpServerConfig,
    leases: Seq<LeaseView>,
    now: Instant,
    server_cidr: Ipv4Cidr,
    request: DhcpRequestView,
) -> Option<Duration> {
    let t = noted(leases, client_of(request), request.chaddr);
    let own = find_by_client(t, client_of(request));
    match discover(config, leases, now, server_cidr, request).reply {
        Some(reply) => if own is Some && is_running(t[own->0], reply.yiaddr, now) {
            None
        } else {
            Some(Duration::of_secs(OFFER_TIMEOUT as int))
        },
        None => None,
    }
}

/// For how long a DECLINE holds its client's address back, if it does.
pub open spec fn decline_term(leases: Seq<LeaseView>, request: DhcpRequestView) -> Option<
    Duration,
> {
    let t = noted(leases, client_of(request), request.chaddr);
    let own = find_by_client(t, client_of(request));
    let addr = addr_in_option(request.requested_ip);
    if own is Some && addr is Some && t[own->0].address == addr->0 {
        Some(Duration::of_secs(DECLINE_TIMEOUT as int))
    } else {
        None
    }
}

/// For how long a message gives its client's lease a new end, if it does: the time of
/// the offer, the lease that is granted, or the time a declined address is held back.
pub open spec fn new_term(
    config: DhcpServerConfig,
    t: Seq<LeaseView>,
    now: Instant,
    server_cidr: Ipv4Cidr,
    message_type: DhcpMessageType,
    request: DhcpRequestView,
) -> Option<Duration> {
    match message_type {
        DhcpMessageType::Discover => offer_term(config, t, now, server_cidr, request),
        DhcpMessageType::Request => match request_step(
            config,
            t,
            now,
            server_cidr,
            request,
        ).reply {
            Some(reply) => reply.lease_duration,
            None => None,
        },
        DhcpMessageType::Decline => decline_term(t, request),
        _ => None,
    }
}

/// Whether the end that a message gives a lease, if it gives one, is a representable
/// instant.
pub open spec fn ends_in_time(
    config: DhcpServerConfig,
    t: Seq<LeaseView>,
    now: Instant,
    server_cidr: Ipv4Cidr,
    message_type: DhcpMessageType,
    request: DhcpRequestView,
) -> bool {
    new_term(config, t, now, server_cidr, message_type, request) matches Some(term)
        ==> now.can_add(term)
}

/// Where a reply goes (RFC 2131 section 4.1): to ciaddr if it is set, else by
/// broadcast if asked to, else straight to the client's hardware address. NAKs
/// always go to broadcast: the client may not have an address it can be reached
/// on.
pub open spec fn destination(request: DhcpRequestView, reply: Reply) -> (
    Ipv4Address,
    EthernetAddress,
) {
    if reply.message_type == DhcpMessageType::Nak {
        (Ipv4Address::everyone(), EthernetAddress::everyone())
    } else if reply.ciaddr != Ipv4Address::any() {
        (reply.ciaddr, request.chaddr)
    } else if request.flags.asks_broadcast() {
        (Ipv4Address::everyone(), EthernetAddress::everyone())
    } else {
        (reply.yiaddr, request.chaddr)
    }
}

/// The bytes of a list of addresses.
pub open spec fn address_bytes(addrs: Seq<Ipv4Address>) -> Seq<u8>
    decreases addrs.len(),
{
    if addrs.len() == 0 {
        Seq::empty()
    } else {
        address_bytes(addrs.drop_last()) + addrs.last().octets()
    }
}

/// The bytes of a list of options.
pub open spec fn options_bytes(options: Seq<DhcpOption<'static>>) -> Seq<u8>
    decreases options.len(),
{
    if options.len() == 0 {
        Seq::empty()
    } else {
        options_bytes(options.drop_last()) + option_bytes(options.last().kind, options.last().data@)
    }
}

/// The seconds of a duration, as far as 32 bits can say.
pub open spec fn lease_secs(duration: Duration) -> int {
    let secs = duration.micros as int / 1_000_000;
    if secs > 0xffff_ffff {
        0xffff_ffff
    } else {
        secs
    }
}

/// The options every reply starts with: its type, the server, and the lease time.
pub open spec fn leading_options(server_cidr: Ipv4Cidr, reply: Reply) -> Seq<u8> {
    option_bytes(OPT_DHCP_MESSAGE_TYPE, seq![reply.message_type.number()]) + option_bytes(
        OPT_SERVER_IDENTIFIER,
        server_cidr.address.octets(),
    ) + match reply.lease_duration {
        Some(duration) => option_bytes(OPT_IP_LEASE_TIME, be32(lease_secs(duration))),
        None => Seq::empty(),
    }
}

/// The configuration sent to a client. The subnet mask comes before the router
/// (RFC 2132 section 3.3).
pub open spec fn config_options(config: DhcpServerConfig, server_cidr: Ipv4Cidr) -> Seq<u8> {
    option_bytes(OPT_SUBNET_MASK, server_cidr.mask().octets()) + match config.gateway {
        Some(gateway) => option_bytes(OPT_ROUTER, gateway.octets()),
        None => Seq::empty(),
    } + (if listed_addresses(config.dns_servers).len() > 0 {
        option_bytes(OPT_DOMAIN_NAME_SERVER, address_bytes(listed_addresses(config.dns_servers)))
    } else {
        Seq::empty()
    }) + options_bytes(config.outgoing_options@)
}

/// The options of a reply, end marker included.
pub open spec fn reply_options(config: DhcpServerConfig, server_cidr: Ipv4Cidr, reply: Reply) -> Seq<
    u8,
> {
    leading_options(server_cidr, reply) + (if reply.message_type != DhcpMessageType::Nak {
        config_options(config, server_cidr)
    } else {
        Seq::empty()
    }) + match reply.message {
        Some(message) => option_bytes(OPT_MESSAGE, encode_utf8(message@)),
        None => Seq::empty(),
    } + seq![OPT_END]
}

/// A reply before it is padded.
pub open spec fn unpadded_message(
    config: DhcpServerConfig,
    server_cidr: Ipv4Cidr,
    request: DhcpRequestView,
    reply: Reply,
) -> Seq<u8> {
    reply_header(
        reply.message_type,
        request.xid,
        request.flags,
        reply.ciaddr,
        reply.yiaddr,
        request.chaddr,
    ) + reply_options(config, server_cidr, reply)
}

/// The DHCP message of a reply, padded to the shortest message.
pub open spec fn reply_message(
    config: DhcpServerConfig,
    server_cidr: Ipv4Cidr,
    request: DhcpRequestView,
    reply: Reply,
) -> Seq<u8> {
    let message = unpadded_message(config, server_cidr, request, reply);
    if message.len() < MIN_MESSAGE_SIZE {
        message + zeros(MIN_MESSAGE_SIZE - message.len())
    } else {
        message
    }
}

/// Whether a reply can be built: it fits in a packet, and so does the data of each
/// option in its length byte. Only absurd outgoing options or an absurd message
/// do not.
pub open spec fn reply_fits(
    config: DhcpServerConfig,
    server_cidr: Ipv4Cidr,
    request: DhcpRequestView,
    reply: Reply,
) -> bool {
    &&& unpadded_message(config, server_cidr, request, reply).len() + LINK_HEADER_LEN
        + IPV4_HEADER_LEN + UDP_HEADER_LEN <= PACKET_BUF_SIZE
    &&& reply.message_type != DhcpMessageType::Nak ==> forall|i: int|
        0 <= i < config.outgoing_options@.len() ==> (
        #[trigger] config.outgoing_options@[i]).data@.len() <= 255
    &&& reply.message matches Some(message) ==> encode_utf8(message@).len() <= 255
}

/// The UDP datagram of a reply.
pub open spec fn reply_datagram(
    config: DhcpServerConfig,
    server_cidr: Ipv4Cidr,
    request: DhcpRequestView,
    reply: Reply,
    offload: bool,
) -> Seq<u8> {
    udp_datagram(
        server_cidr.address,
        destination(request, reply).0,
        DHCP_SERVER_PORT,
        DHCP_CLIENT_PORT,
        reply_message(config, server_cidr, request, reply),
        offload,
    )
}

/// The DHCP server state of one interface.
#[derive(Debug)]
pub struct Server {
    pub config: DhcpServerConfig,
    pub leases: LeaseTable,
}

impl Server {
    /// A server with no leases.
    pub fn new(config: DhcpServerConfig) -> (server: Server)
        ensures
            server.config == config,
            server.leases@ == Seq::<LeaseView>::empty(),
    {
        Server { config, leases: LeaseTable::new() }
    }

    /// The lease table.
    pub fn leases(&self) -> (leases: &[DhcpServerLease])
        ensures
            lease_views(leases@) == self.leases@,
    {
        self.leases.as_slice()
    }

    /// Remove the leases of an address. Returns whether there were any.
    pub fn remove_lease(&mut self, address: Ipv4Address) -> (removed: bool)
        ensures
            final(self).config == old(self).config,
            final(self).leases@ == old(self).leases@.filter(
                |lease: LeaseView| lease.address != address,
            ),
            removed == exists|i: int|
                0 <= i < old(self).leases@.len() && (#[trigger] old(self).leases@[i]).address
                    == address,
    {
        let ghost kept = |lease: LeaseView| lease.address != address;
        let ghost all = self.leases@;
        let len: usize = self.leases.len();
        self.leases.drop_records(address, None);
        proof {
            assert(self.leases@ == all.filter(kept)) by {
                let outlives = |lease: LeaseView| lease.outlives(address, None);
                assert(outlives =~= kept);
            }
            lemma_filter_drops(all, kept);
        }
        self.leases.len() != len
    }

    /// Whether `addr` is in the pool.
    pub fn in_pool(&self, addr: Ipv4Address) -> (r: bool)
        ensures
            r == self.config.pools(addr),
    {
        self.config.pool_start.to_bits() <= addr.to_bits() && addr.to_bits()
            <= self.config.pool_end.to_bits()
    }

    /// Note the hardware address a message of this client came from.
    fn note_client(&mut self, id: &ClientId<'_>, chaddr: EthernetAddress)
        ensures
            final(self).config == old(self).config,
            final(self).leases@ == noted(old(self).leases@, id@, chaddr),
    {
        if let Some(i) = self.leases.find_by_client(id) {
            self.leases.set_hardware_addr(i, chaddr);
        }
    }

    /// The lease table slot for this client: its existing lease, a fresh one, or
    /// one reclaimed from the longest-expired record. `None` if every slot holds
    /// an active lease.
    pub fn entry_for(
        &mut self,
        id: &ClientId<'_>,
        chaddr: EthernetAddress,
        now: Instant,
    ) -> (index: Option<usize>)
        ensures
            final(self).config == old(self).config,
            match entry_for(old(self).leases@, id@, chaddr, now) {
                Some((table, i)) => {
                    &&& index == Some(i as usize)
                    &&& 0 <= i < table.len() <= usize::MAX
                    &&& final(self).leases@ == table
                },
                None => index is None && final(self).leases@ == old(self).leases@,
            },
    {
        let len: usize = self.leases.len();
        if let Some(i) = self.leases.find_by_client(id) {
            self.leases.set_hardware_addr(i, chaddr);
            return Some(i);
        }
        match self.leases.push(DhcpServerLease::new(id, chaddr)) {
            Ok(()) => Some(len),
            Err(lease) => match self.leases.longest_expired(now) {
                Some(i) => {
                    self.leases.replace(i, lease);
                    Some(i)
                },
                None => None,
            },
        }
    }

    /// Whether `addr` can be offered to the client.
    fn is_usable(
        &self,
        id: &ClientId<'_>,
        addr: Ipv4Address,
        now: Instant,
        server_cidr: &Ipv4Cidr,
    ) -> (r: bool)
        requires
            server_cidr.wf(),
        ensures
            r == usable(self.config, self.leases@, id@, addr, now, *server_cidr),
    {
        self.in_pool(addr) && addr_valid(addr, server_cidr) && self.leases.available_for(
            addr,
            id,
            now,
        )
    }

    /// Choose an address for a discovering client (RFC 2131 section 4.3.1): its
    /// current or previous lease first, then the address it asks for, then the
    /// first free address of the pool.
    pub fn pick_addr(
        &self,
        id: &ClientId<'_>,
        requested: Option<Ipv4Address>,
        now: Instant,
        server_cidr: &Ipv4Cidr,
    ) -> (addr: Option<Ipv4Address>)
        requires
            server_cidr.wf(),
        ensures
            addr == pick_addr(self.config, self.leases@, id@, requested, now, *server_cidr),
    {
        if let Some(i) = self.leases.find_by_client(id) {
            let own = self.leases.get(i).address();
            if self.is_usable(id, own, now, server_cidr) {
                return Some(own);
            }
        }
        if let Some(addr) = requested {
            if self.is_usable(id, addr, now, server_cidr) {
                return Some(addr);
            }
        }
        let mut bits: u32 = self.config.pool_start.to_bits();
        let end: u32 = self.config.pool_end.to_bits();
        if bits > end {
            assert(forall|addr: Ipv4Address|
                !is_first_usable(self.config, self.leases@, id@, now, *server_cidr, addr));
            return None;
        }
        loop
            invariant
                server_cidr.wf(),
                self.config.pool_start.bits <= bits <= end,
                end == self.config.pool_end.bits,
                forall|lower: Ipv4Address|
                    lower.bits < bits ==> !(#[trigger] usable(
                        self.config,
                        self.leases@,
                        id@,
                        lower,
                        now,
                        *server_cidr,
                    )),
                ({
                    let own = find_by_client(self.leases@, id@);
                    own is Some ==> !usable(
                        self.config,
                        self.leases@,
                        id@,
                        self.leases@[own->0].address,
                        now,
                        *server_cidr,
                    )
                }),
                requested is Some ==> !usable(
                    self.config,
                    self.leases@,
                    id@,
                    requested->0,
                    now,
                    *server_cidr,
                ),
            decreases end - bits,
        {
            let addr = Ipv4Address { bits };
            if self.is_usable(id, addr, now, server_cidr) {
                proof {
                    assert(is_first_usable(
                        self.config,
                        self.leases@,
                        id@,
                        now,
                        *server_cidr,
                        addr,
                    ));
                    let found = choose|addr: Ipv4Address|
                        is_first_usable(self.config, self.leases@, id@, now, *server_cidr, addr);
                    assert(found.bits == addr.bits);
                }
                return Some(addr);
            }
            assert forall|lower: Ipv4Address| lower.bits < bits + 1 implies !(#[trigger] usable(
                self.config,
                self.leases@,
                id@,
                lower,
                now,
                *server_cidr,
            )) by {
                if lower.bits == bits {
                    assert(lower == addr);
                }
            }
            if bits == end {
                return None;
            }
            bits += 1;
        }
    }

    /// The lease duration to grant, honoring a shorter request (RFC 2131 section
    /// 4.3.1).
    pub fn lease_duration(&self, requested: Option<Duration>) -> (duration: Duration)
        ensures
            duration == granted_duration(self.config, requested),
    {
        match requested {
            Some(d) => {
                let shortest = Duration::from_secs(MIN_LEASE_DURATION);
                let at_least = if d.micros < shortest.micros {
                    shortest
                } else {
                    d
                };
                if at_least.micros < self.config.lease_duration.micros {
                    at_least
                } else {
                    self.config.lease_duration
                }
            },
            None => self.config.lease_duration,
        }
    }

    /// Handle one client message. Returns the reply to transmit, with its IP and
    /// Ethernet destination, or `None` when the message gets no reply, or there is
    /// no packet buffer for it: the client retransmits.
    pub fn handle(
        &mut self,
        pool: &PacketPool,
        now: Instant,
        server_cidr: Ipv4Cidr,
        checksum_caps: &ChecksumCapabilities,
        message_type: DhcpMessageType,
        packet: &DhcpPacket<'_>,
    ) -> (reply: Option<(PacketBuf, Ipv4Address, EthernetAddress)>)
        requires
            packet.wf(),
            server_cidr.wf(),
            ends_in_time(
                old(self).config,
                old(self).leases@,
                now,
                server_cidr,
                message_type,
                packet@,
            ),
            server_step(
                old(self).config,
                old(self).leases@,
                now,
                server_cidr,
                message_type,
                packet@,
            ).reply matches Some(reply) ==> reply_fits(
                old(self).config,
                server_cidr,
                packet@,
                reply,
            ),
        ensures
            final(self).config == old(self).config,
            ({
                let step = server_step(
                    old(self).config,
                    old(self).leases@,
                    now,
                    server_cidr,
                    message_type,
                    packet@,
                );
                &&& final(self).leases@ == step.leases
                &&& reply matches Some((buf, dst_addr, dst_hw)) ==> {
                    &&& step.reply is Some
                    &&& buf.wf()
                    &&& buf.room() == LINK_HEADER_LEN + IPV4_HEADER_LEN
                    &&& buf@.bytes == reply_datagram(
                        old(self).config,
                        server_cidr,
                        packet@,
                        step.reply->0,
                        checksum_caps.udp.tx,
                    )
                    &&& buf@.meta == crate::driver::PacketMeta::plain()
                    &&& (dst_addr, dst_hw) == destination(packet@, step.reply->0)
                }
            }),
    {
        match self.decide(now, server_cidr, message_type, packet) {
            Some(reply) => self.build_reply(pool, server_cidr, checksum_caps, packet, reply),
            None => None,
        }
    }

    /// Handle one client message, building the reply in an empty buffer, if there is
    /// one. Returns the reply to transmit, with its IP and Ethernet destination.
    pub fn handle_in(
        &mut self,
        buf: Option<PacketBuf>,
        now: Instant,
        server_cidr: Ipv4Cidr,
        checksum_caps: &ChecksumCapabilities,
        message_type: DhcpMessageType,
        packet: &DhcpPacket<'_>,
    ) -> (reply: Option<(PacketBuf, Ipv4Address, EthernetAddress)>)
        requires
            buf matches Some(buf) ==> buf.fresh(),
            packet.wf(),
            server_cidr.wf(),
            ends_in_time(
                old(self).config,
                old(self).leases@,
                now,
                server_cidr,
                message_type,
                packet@,
            ),
            server_step(
                old(self).config,
                old(self).leases@,
                now,
                server_cidr,
                message_type,
                packet@,
            ).reply matches Some(reply) ==> reply_fits(
                old(self).config,
                server_cidr,
                packet@,
                reply,
            ),
        ensures
            final(self).config == old(self).config,
            ({
                let step = server_step(
                    old(self).config,
                    old(self).leases@,
                    now,
                    server_cidr,
                    message_type,
                    packet@,
                );
                &&& final(self).leases@ == step.leases
                &&& reply is Some <==> buf is Some && step.reply is Some
                &&& reply matches Some((buf, dst_addr, dst_hw)) ==> {
                    &&& step.reply is Some
                    &&& buf.wf()
                    &&& buf.room() == LINK_HEADER_LEN + IPV4_HEADER_LEN
                    &&& buf@.bytes == reply_datagram(
                        old(self).config,
                        server_cidr,
                        packet@,
                        step.reply->0,
                        checksum_caps.udp.tx,
                    )
                    &&& buf@.meta == crate::driver::PacketMeta::plain()
                    &&& (dst_addr, dst_hw) == destination(packet@, step.reply->0)
                }
            }),
    {
        match self.decide(now, server_cidr, message_type, packet) {
            Some(reply) => self.build_reply_in(buf, server_cidr, checksum_caps, packet, reply),
            None => None,
        }
    }

    /// Decide what one client message does to the leases, and what to reply.
    pub fn decide(
        &mut self,
        now: Instant,
        server_cidr: Ipv4Cidr,
        message_type: DhcpMessageType,
        packet: &DhcpPacket<'_>,
    ) -> (reply: Option<Reply>)
        requires
            packet.wf(),
            server_cidr.wf(),
            ends_in_time(
                old(self).config,
                old(self).leases@,
                now,
                server_cidr,
                message_type,
                packet@,
            ),
        ensures
            final(self).config == old(self).config,
            ({
                let step = server_step(
                    old(self).config,
                    old(self).leases@,
                    now,
                    server_cidr,
                    message_type,
                    packet@,
                );
                final(self).leases@ == step.leases && reply == step.reply
            }),
    {
        let chaddr = packet.client_hardware_address();
        let id = match packet.option(OPT_CLIENT_ID) {
            Some(data) => if data.len() > 0 && data.len() <= DHCP_SERVER_CLIENT_ID_SIZE {
                ClientId::Id(data)
            } else {
                ClientId::Hw(chaddr)
            },
            None => ClientId::Hw(chaddr),
        };
        match message_type {
            DhcpMessageType::Discover => self.handle_discover(
                now,
                server_cidr,
                packet,
                &id,
                chaddr,
            ),
            DhcpMessageType::Request => self.handle_request(
                now,
                server_cidr,
                packet,
                &id,
                chaddr,
            ),
            DhcpMessageType::Decline => {
                self.note_client(&id, chaddr);
                let requested = match packet.option(OPT_REQUESTED_IP) {
                    Some(data) => parse_ipv4(data),
                    None => None,
                };
                if let Some(addr) = requested {
                    if let Some(i) = self.leases.find_by_client(&id) {
                        if self.leases.get(i).address() == addr {
                            // RFC 2131 section 4.3.3: the address is in use by
                            // someone else.
                            self.leases.set_state(
                                i,
                                DhcpServerLeaseState::Declined,
                                now.after(Duration::from_secs(DECLINE_TIMEOUT)),
                            );
                        }
                    }
                }
                None
            },
            DhcpMessageType::Release => {
                self.note_client(&id, chaddr);
                let addr = packet.client_ip();
                if let Some(i) = self.leases.find_by_client(&id) {
                    if self.leases.get(i).address() == addr && self.leases.get(i).is_active(now) {
                        self.leases.set_state(i, DhcpServerLeaseState::Released, now);
                    }
                }
                None
            },
            DhcpMessageType::Inform => {
                self.note_client(&id, chaddr);
                // RFC 2131 section 4.3.5: configuration parameters only, no lease
                // time, no yiaddr, sent to ciaddr.
                let ciaddr = packet.client_ip();
                if ciaddr == Ipv4Address::unspecified() {
                    return None;
                }
                Some(
                    Reply {
                        message_type: DhcpMessageType::Ack,
                        ciaddr,
                        yiaddr: Ipv4Address::unspecified(),
                        lease_duration: None,
                        message: None,
                    },
                )
            },
            _ => None,
        }
    }

    /// The lease duration the client asks for.
    fn asked_duration(packet: &DhcpPacket<'_>) -> (duration: Option<Duration>)
        requires
            packet.wf(),
        ensures
            duration == requested_duration(packet@),
    {
        match packet.option(OPT_IP_LEASE_TIME) {
            Some(data) => match parse_u32(data) {
                Some(secs) => Some(Duration::from_secs(secs as u64)),
                None => None,
            },
            None => None,
        }
    }

    /// Handle a DISCOVER.
    pub fn handle_discover(
        &mut self,
        now: Instant,
        server_cidr: Ipv4Cidr,
        packet: &DhcpPacket<'_>,
        id: &ClientId<'_>,
        chaddr: EthernetAddress,
    ) -> (reply: Option<Reply>)
        requires
            packet.wf(),
            server_cidr.wf(),
            id@ == client_of(packet@),
            chaddr == packet@.chaddr,
            offer_term(
                old(self).config,
                old(self).leases@,
                now,
                server_cidr,
                packet@,
            ) matches Some(term) ==> now.can_add(term),
        ensures
            final(self).config == old(self).config,
            ({
                let step = discover(
                    old(self).config,
                    old(self).leases@,
                    now,
                    server_cidr,
                    packet@,
                );
                final(self).leases@ == step.leases && reply == step.reply
            }),
    {
        self.note_client(id, chaddr);
        let requested = match packet.option(OPT_REQUESTED_IP) {
            Some(data) => parse_ipv4(data),
            None => None,
        };
        let requested_lease = Self::asked_duration(packet);
        let addr = match self.pick_addr(id, requested, now, &server_cidr) {
            Some(addr) => addr,
            None => {
                return None;
            },
        };
        // RFC 2131 section 4.3.1: a client with a running lease that asks for no
        // specific one is offered the time it has left.
        let mut duration = self.lease_duration(requested_lease);
        if let Some(i) = self.leases.find_by_client(id) {
            let lease = self.leases.get(i);
            if requested_lease.is_none() && lease.state() == DhcpServerLeaseState::Bound
                && lease.address() == addr && lease.expires_at().micros > now.micros {
                duration = lease.expires_at().since(now);
            }
        }
        let i = match self.entry_for(id, chaddr, now) {
            Some(i) => i,
            None => {
                return None;
            },
        };
        let lease = self.leases.get(i);
        // Offering a client its own running lease must not shorten it.
        if !(lease.state() == DhcpServerLeaseState::Bound && lease.address() == addr
            && lease.expires_at().micros > now.micros) {
            self.leases.assign(
                i,
                addr,
                DhcpServerLeaseState::Offered,
                now.after(Duration::from_secs(OFFER_TIMEOUT)),
            );
        } else {
            assert(self.leases@.update(i as int, self.leases@[i as int]) =~= self.leases@);
        }
        Some(
            Reply {
                message_type: DhcpMessageType::Offer,
                ciaddr: Ipv4Address::unspecified(),
                yiaddr: addr,
                lease_duration: Some(duration),
                message: None,
            },
        )
    }

    /// Handle a REQUEST.
    pub fn handle_request(
        &mut self,
        now: Instant,
        server_cidr: Ipv4Cidr,
        packet: &DhcpPacket<'_>,
        id: &ClientId<'_>,
        chaddr: EthernetAddress,
    ) -> (reply: Option<Reply>)
        requires
            packet.wf(),
            server_cidr.wf(),
            id@ == client_of(packet@),
            chaddr == packet@.chaddr,
            request_step(
                old(self).config,
                old(self).leases@,
                now,
                server_cidr,
                packet@,
            ).reply matches Some(reply) ==> (reply.lease_duration matches Some(duration)
                ==> now.can_add(duration)),
        ensures
            final(self).config == old(self).config,
            ({
                let step = request_step(
                    old(self).config,
                    old(self).leases@,
                    now,
                    server_cidr,
                    packet@,
                );
                final(self).leases@ == step.leases && reply == step.reply
            }),
    {
        self.note_client(id, chaddr);
        let requested = match packet.option(OPT_REQUESTED_IP) {
            Some(data) => parse_ipv4(data),
            None => None,
        };
        let server_id = match packet.option(OPT_SERVER_IDENTIFIER) {
            Some(data) => parse_ipv4(data),
            None => None,
        };
        let ciaddr = packet.client_ip();
        if let Some(server) = server_id {
            if server != server_cidr.address() {
                // The client selected another server (RFC 2131 section 3.1 step
                // 4): what it held with us is dead, only the record stays.
                if let Some(i) = self.leases.find_by_client(id) {
                    self.leases.set_state(i, DhcpServerLeaseState::Released, now);
                }
                return None;
            }
        }
        let selecting = server_id.is_some();
        let addr = match requested {
            Some(addr) => addr,
            None => if !selecting && ciaddr != Ipv4Address::unspecified() {
                ciaddr
            } else {
                return None;
            },
        };
        match self.answer(now, server_cidr, id, addr, selecting, requested.is_some()) {
            Answer::Ack => {
                let duration = self.lease_duration(Self::asked_duration(packet));
                // Drop stale records of previous holders of the address.
                self.leases.drop_records(addr, Some(*id));
                let i = match self.entry_for(id, chaddr, now) {
                    Some(i) => i,
                    None => {
                        return Some(Self::nak("no free leases"));
                    },
                };
                self.leases.assign(
                    i,
                    addr,
                    DhcpServerLeaseState::Bound,
                    now.after(duration),
                );
                Some(
                    Reply {
                        message_type: DhcpMessageType::Ack,
                        ciaddr,
                        yiaddr: addr,
                        lease_duration: Some(duration),
                        message: None,
                    },
                )
            },
            Answer::Nak(reason) => Some(Self::nak(reason)),
            Answer::Silent => None,
        }
    }

    /// The answer to a client that requests `addr`. It is `selecting` if it chose
    /// this server among others, and `in_option` if it put the address in the
    /// requested-ip option.
    fn answer(
        &self,
        now: Instant,
        server_cidr: Ipv4Cidr,
        id: &ClientId<'_>,
        addr: Ipv4Address,
        selecting: bool,
        in_option: bool,
    ) -> (answer: Answer)
        requires
            server_cidr.wf(),
        ensures
            forall|request: DhcpRequestView|
                client_of(request) == id@ && selecting == addr_in_option(request.server_id) is Some
                    && in_option == addr_in_option(request.requested_ip) is Some
                    ==> answer == #[trigger] answer_to(
                    self.config,
                    self.leases@,
                    now,
                    server_cidr,
                    request,
                    addr,
                ),
    {
        if !server_cidr.contains_addr(&addr) || !addr_valid(addr, &server_cidr) {
            return Answer::Nak("requested address not on this network");
        }
        match self.leases.find_by_client(id) {
            Some(i) => if self.leases.get(i).address() == addr && self.leases.available_for(
                addr,
                id,
                now,
            ) {
                Answer::Ack
            } else {
                Answer::Nak("requested address does not match the lease")
            },
            None => if !selecting && in_option {
                Answer::Silent
            } else if self.in_pool(addr) && self.leases.available_for(addr, id, now) {
                Answer::Ack
            } else if selecting {
                Answer::Nak("requested address is not available")
            } else if !self.in_pool(addr) {
                Answer::Silent
            } else {
                Answer::Nak("requested address is in use")
            },
        }
    }

    /// A refusal, with its reason.
    pub fn nak(reason: &'static str) -> (reply: Reply)
        ensures
            reply == nak(reason),
    {
        Reply {
            message_type: DhcpMessageType::Nak,
            ciaddr: Ipv4Address::unspecified(),
            yiaddr: Ipv4Address::unspecified(),
            lease_duration: None,
            message: Some(reason),
        }
    }

    /// Build one reply, UDP header included, and pick its destination (RFC 2131
    /// section 4.1). `None` if the pool is empty: the client retransmits.
    pub fn build_reply(
        &self,
        pool: &PacketPool,
        server_cidr: Ipv4Cidr,
        checksum_caps: &ChecksumCapabilities,
        request: &DhcpPacket<'_>,
        reply: Reply,
    ) -> (built: Option<(PacketBuf, Ipv4Address, EthernetAddress)>)
        requires
            request.wf(),
            server_cidr.wf(),
            reply_fits(self.config, server_cidr, request@, reply),
        ensures
            built matches Some((buf, dst_addr, dst_hw)) ==> {
                &&& buf.wf()
                &&& buf.room() == LINK_HEADER_LEN + IPV4_HEADER_LEN
                &&& buf@.bytes == reply_datagram(
                    self.config,
                    server_cidr,
                    request@,
                    reply,
                    checksum_caps.udp.tx,
                )
                &&& buf@.meta == crate::driver::PacketMeta::plain()
                &&& (dst_addr, dst_hw) == destination(request@, reply)
            },
    {
        self.build_reply_in(PacketBuf::try_new(pool), server_cidr, checksum_caps, request, reply)
    }

    /// Build one reply, UDP header included, in an empty buffer, if there is one, and
    /// pick its destination.
    pub fn build_reply_in(
        &self,
        buf: Option<PacketBuf>,
        server_cidr: Ipv4Cidr,
        checksum_caps: &ChecksumCapabilities,
        request: &DhcpPacket<'_>,
        reply: Reply,
    ) -> (built: Option<(PacketBuf, Ipv4Address, EthernetAddress)>)
        requires
            buf matches Some(buf) ==> buf.fresh(),
            request.wf(),
            server_cidr.wf(),
            reply_fits(self.config, server_cidr, request@, reply),
        ensures
            built is Some <==> buf is Some,
            built matches Some((buf, dst_addr, dst_hw)) ==> {
                &&& buf.wf()
                &&& buf.room() == LINK_HEADER_LEN + IPV4_HEADER_LEN
                &&& buf@.bytes == reply_datagram(
                    self.config,
                    server_cidr,
                    request@,
                    reply,
                    checksum_caps.udp.tx,
                )
                &&& buf@.meta == crate::driver::PacketMeta::plain()
                &&& (dst_addr, dst_hw) == destination(request@, reply)
            },
    {
        match buf {
            Some(buf) => Some(self.write_reply(buf, server_cidr, checksum_caps, request, reply)),
            None => None,
        }
    }

    /// Where a reply goes.
    fn reply_destination(request: &DhcpPacket<'_>, reply: &Reply) -> (dst: (
        Ipv4Address,
        EthernetAddress,
    ))
        requires
            request.wf(),
        ensures
            dst == destination(request@, *reply),
    {
        let chaddr = request.client_hardware_address();
        if reply.message_type == DhcpMessageType::Nak {
            (Ipv4Address::broadcast(), EthernetAddress::broadcast())
        } else if reply.ciaddr != Ipv4Address::unspecified() {
            (reply.ciaddr, chaddr)
        } else if request.flags().broadcast() {
            (Ipv4Address::broadcast(), EthernetAddress::broadcast())
        } else {
            (reply.yiaddr, chaddr)
        }
    }

    /// Write one reply, UDP header included, into an empty buffer, and pick its
    /// destination.
    pub fn write_reply(
        &self,
        buf: PacketBuf,
        server_cidr: Ipv4Cidr,
        checksum_caps: &ChecksumCapabilities,
        request: &DhcpPacket<'_>,
        reply: Reply,
    ) -> (written: (PacketBuf, Ipv4Address, EthernetAddress))
        requires
            buf@.bytes.len() == 0,
            request.wf(),
            server_cidr.wf(),
            reply_fits(self.config, server_cidr, request@, reply),
        ensures
            written.0.wf(),
            written.0.room() == LINK_HEADER_LEN + IPV4_HEADER_LEN,
            written.0@.bytes == reply_datagram(
                self.config,
                server_cidr,
                request@,
                reply,
                checksum_caps.udp.tx,
            ),
            written.0@.meta == buf@.meta,
            (written.1, written.2) == destination(request@, reply),
    {
        let (dst_addr, dst_hw) = Self::reply_destination(request, &reply);
        let mut message = build_reply_header(
            reply.message_type,
            request.transaction_id(),
            request.flags(),
            reply.ciaddr,
            reply.yiaddr,
            request.client_hardware_address(),
        );
        let ghost header = message@;
        self.put_leading_options(&mut message, server_cidr, &reply);
        if reply.message_type != DhcpMessageType::Nak {
            self.put_config_options(&mut message, server_cidr);
        }
        if let Some(text) = reply.message {
            put_option(&mut message, OPT_MESSAGE, text.as_bytes());
        }
        message.push(OPT_END);
        assert(message@ =~= header + reply_options(self.config, server_cidr, reply));
        assert(message@ == unpadded_message(self.config, server_cidr, request@, reply));
        if message.len() < MIN_MESSAGE_SIZE {
            let missing: usize = MIN_MESSAGE_SIZE - message.len();
            put_zeros(&mut message, missing);
        }
        assert(message@ == reply_message(self.config, server_cidr, request@, reply));
        let mut buf = buf;
        buf.reserve(LINK_HEADER_LEN + IPV4_HEADER_LEN + UDP_HEADER_LEN);
        buf.append(message.as_slice());
        assert(buf@.bytes =~= message@);
        let udp = build_udp_header(
            server_cidr.address(),
            dst_addr,
            DHCP_SERVER_PORT,
            DHCP_CLIENT_PORT,
            message.as_slice(),
            checksum_caps.udp.tx,
        );
        buf.push_front(udp.as_slice());
        (buf, dst_addr, dst_hw)
    }

    /// Append the options every reply starts with.
    fn put_leading_options(&self, message: &mut Vec<u8>, server_cidr: Ipv4Cidr, reply: &Reply)
        ensures
            final(message)@ == old(message)@ + leading_options(server_cidr, *reply),
    {
        let mut data: Vec<u8> = Vec::new();
        data.push(reply.message_type.to_number());
        assert(data@ =~= seq![reply.message_type.number()]);
        put_option(message, OPT_DHCP_MESSAGE_TYPE, data.as_slice());
        let mut data: Vec<u8> = Vec::new();
        put_u32(&mut data, server_cidr.address().bits);
        assert(data@ =~= server_cidr.address.octets());
        put_option(message, OPT_SERVER_IDENTIFIER, data.as_slice());
        if let Some(duration) = reply.lease_duration {
            let all: u64 = duration.secs();
            let secs: u32 = if all > 0xffff_ffff {
                0xffff_ffff
            } else {
                all as u32
            };
            let mut data: Vec<u8> = Vec::new();
            put_u32(&mut data, secs);
            assert(data@ =~= be32(lease_secs(duration)));
            put_option(message, OPT_IP_LEASE_TIME, data.as_slice());
        }
        assert(message@ =~= old(message)@ + leading_options(server_cidr, *reply));
    }

    /// Append the configuration sent to a client.
    fn put_config_options(&self, message: &mut Vec<u8>, server_cidr: Ipv4Cidr)
        requires
            server_cidr.wf(),
            forall|i: int|
                0 <= i < self.config.outgoing_options@.len() ==> (
                #[trigger] self.config.outgoing_options@[i]).data@.len() <= 255,
        ensures
            final(message)@ == old(message)@ + config_options(self.config, server_cidr),
    {
        // RFC 2132 section 3.3: the subnet mask must come before the router.
        let mut data: Vec<u8> = Vec::new();
        put_u32(&mut data, server_cidr.netmask().bits);
        assert(data@ =~= server_cidr.mask().octets());
        put_option(message, OPT_SUBNET_MASK, data.as_slice());
        if let Some(gateway) = self.config.gateway {
            let mut data: Vec<u8> = Vec::new();
            put_u32(&mut data, gateway.bits);
            assert(data@ =~= gateway.octets());
            put_option(message, OPT_ROUTER, data.as_slice());
        }
        let servers = address_slice(&self.config.dns_servers);
        if servers.len() > 0 {
            let data = Self::address_data(servers);
            put_option(message, OPT_DOMAIN_NAME_SERVER, data.as_slice());
        }
        let ghost before = message@;
        let options = self.config.outgoing_options;
        let mut index: usize = 0;
        assert(message@ =~= before + options_bytes(options@.take(0)));
        while index < options.len()
            invariant
                index <= options@.len(),
                options@ == self.config.outgoing_options@,
                forall|i: int|
                    0 <= i < self.config.outgoing_options@.len() ==> (
                    #[trigger] self.config.outgoing_options@[i]).data@.len() <= 255,
                message@ == before + options_bytes(options@.take(index as int)),
            decreases options@.len() - index,
        {
            let option = options[index];
            assert(options@.take(index + 1).drop_last() =~= options@.take(index as int));
            put_option(message, option.kind, option.data);
            index += 1;
            assert(message@ =~= before + options_bytes(options@.take(index as int)));
        }
        assert(options@.take(index as int) =~= options@);
        assert(message@ =~= old(message)@ + config_options(self.config, server_cidr));
    }

    /// The bytes of a list of addresses.
    fn address_data(addrs: &[Ipv4Address]) -> (data: Vec<u8>)
        requires
            addrs@.len() <= DHCP_MAX_DNS_SERVER_COUNT,
        ensures
            data@ == address_bytes(addrs@),
            data@.len() <= 4 * DHCP_MAX_DNS_SERVER_COUNT,
    {
        let mut data: Vec<u8> = Vec::new();
        let mut index: usize = 0;
        assert(data@ =~= address_bytes(addrs@.take(0)));
        while index < addrs.len()
            invariant
                index <= addrs@.len() <= DHCP_MAX_DNS_SERVER_COUNT,
                data@ == address_bytes(addrs@.take(index as int)),
                data@.len() == 4 * index,
            decreases addrs@.len() - index,
        {
            assert(addrs@.take(index + 1).drop_last() =~= addrs@.take(index as int));
            put_u32(&mut data, addrs[index].bits);
            index += 1;
        }
        assert(addrs@.take(index as int) =~= addrs@);
        data
    }
}

} // verus!

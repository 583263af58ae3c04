//! The DHCPv4 server.

use std::cell::RefCell;
use std::rc::Rc;
use xarxa::config::{DHCP_SERVER_CLIENT_ID_SIZE, DHCP_SERVER_LEASE_COUNT};
use xarxa::driver::{
    CallLog, Capabilities, ChecksumCapabilities, ChecksumOffload, Driver, LinkState, PacketBuf, TxTimestamp,
};
use xarxa::iface::dhcpv4_server::{
    DhcpServerConfig, DhcpServerLease, DhcpServerLeaseState, Server, DECLINE_TIMEOUT,
    MIN_LEASE_DURATION, MIN_MESSAGE_SIZE, OFFER_TIMEOUT,
};
use xarxa::iface::IfaceHandle;
use xarxa::stack::Stack;
use xarxa::time::{Duration, Instant};
use xarxa::wire::checksum::{checksum_of, sum_words};
use xarxa::wire::dhcpv4::{
    DhcpFlags, DhcpMessageType, DhcpOption, DhcpPacket, DHCP_CLIENT_PORT, DHCP_FLAG_BROADCAST,
    DHCP_HEADER_LEN, DHCP_MAGIC_NUMBER, DHCP_OP_REPLY, DHCP_SERVER_PORT, OPT_CLIENT_ID,
    OPT_DHCP_MESSAGE_TYPE, OPT_DOMAIN_NAME_SERVER, OPT_END, OPT_IP_LEASE_TIME, OPT_MESSAGE,
    OPT_PAD, OPT_REQUESTED_IP, OPT_ROUTER, OPT_SERVER_IDENTIFIER, OPT_SUBNET_MASK,
};
use xarxa::wire::{
    EthernetAddress, HardwareAddress, IpAddress, IpCidr, Ipv4Address, ETHERNET_HEADER_LEN,
    IPV4_HEADER_LEN, UDP_HEADER_LEN,
};

const SERVER_HW: EthernetAddress = EthernetAddress(0x02, 0, 0, 0, 0, 0x01);
const CLIENT_HW: EthernetAddress = EthernetAddress(0x02, 0, 0, 0, 0, 0x42);
const CLIENT2_HW: EthernetAddress = EthernetAddress(0x02, 0, 0, 0, 0, 0x43);
const CLIENT3_HW: EthernetAddress = EthernetAddress(0x02, 0, 0, 0, 0, 0x44);
const BROADCAST_HW: EthernetAddress = EthernetAddress(0xff, 0xff, 0xff, 0xff, 0xff, 0xff);
const UNSPECIFIED: Ipv4Address = Ipv4Address { bits: 0 };
const BROADCAST: Ipv4Address = Ipv4Address { bits: 0xffff_ffff };
const SERVER_IP: Ipv4Address = Ipv4Address { bits: 0xc0a8_0101 };
const DNS_IP: Ipv4Address = Ipv4Address { bits: 0x0101_0101 };
const POOL_START: Ipv4Address = Ipv4Address { bits: 0xc0a8_010a };
const POOL_END: Ipv4Address = Ipv4Address { bits: 0xc0a8_010b };
const OTHER_SERVER_IP: Ipv4Address = Ipv4Address { bits: 0xc0a8_0102 };
const OPT_NTP_SERVERS: u8 = 42;
const XID: u32 = 0xabcd1234;
const IFACE: IfaceHandle = IfaceHandle { index: 0 };
const LEASE_SECS: u64 = 300;

type Sent = Rc<RefCell<Vec<Vec<u8>>>>;

/// A device that records what it is given.
struct TestDevice {
    checksum: ChecksumCapabilities,
    tx: Sent,
}

impl Driver for TestDevice {
    fn capabilities(&self) -> Capabilities {
        Capabilities {
            medium: xarxa::driver::Medium::Ethernet,
            max_transmission_unit: 1514,
            lowpan_ip_mtu: 0,
            checksum: self.checksum,
        }
    }

    fn hardware_address(&self) -> HardwareAddress {
        HardwareAddress::Ethernet(SERVER_HW)
    }

    fn link_state(&mut self, _log: &mut CallLog) -> LinkState {
        LinkState::Up
    }

    fn can_transmit(&mut self, _log: &mut CallLog) -> bool {
        true
    }

    fn transmit(&mut self, packet: PacketBuf, _log: &mut CallLog) {
        self.tx.borrow_mut().push(packet.as_slice().to_vec());
    }

    fn poll_tx_timestamp(&mut self, _log: &mut CallLog) -> Option<TxTimestamp> {
        None
    }
}

type TestStack = Stack<TestDevice>;

fn octets(addr: Ipv4Address) -> [u8; 4] {
    addr.bits.to_be_bytes()
}

fn hw_octets(addr: EthernetAddress) -> [u8; 6] {
    [addr.0, addr.1, addr.2, addr.3, addr.4, addr.5]
}

fn at(secs: i64) -> Instant {
    Instant::from_secs(secs)
}

/// A pool of two addresses, ourselves as gateway, one DNS server.
fn test_config() -> DhcpServerConfig {
    let mut config = DhcpServerConfig::new(POOL_START, POOL_END);
    config.lease_duration = Duration::from_secs(LEASE_SECS);
    config.gateway = Some(SERVER_IP);
    config.dns_servers.push(DNS_IP).unwrap();
    config
}

/// A stack with one Ethernet interface at 192.168.1.1/24, DHCP server on.
fn test_stack() -> (TestStack, Sent) {
    test_stack_with_checksum(ChecksumCapabilities::none())
}

fn test_stack_with_checksum(checksum: ChecksumCapabilities) -> (TestStack, Sent) {
    let tx: Sent = Rc::new(RefCell::new(Vec::new()));
    let mut stack = TestStack::new();
    let handle = stack.add_iface(TestDevice { checksum, tx: tx.clone() }).unwrap();
    assert_eq!(handle, IFACE);
    stack
        .iface(handle)
        .add_ip_addr(IpCidr::new(IpAddress::Ipv4(SERVER_IP), 24))
        .unwrap();
    assert!(test_config().fits());
    stack.iface(handle).set_dhcpv4_server(Some(test_config()));
    (stack, tx)
}

/// A client message under construction.
struct Msg {
    message_type: DhcpMessageType,
    chaddr: EthernetAddress,
    ciaddr: Ipv4Address,
    src_ip: Ipv4Address,
    flags: DhcpFlags,
    options: Vec<(u8, Vec<u8>)>,
}

impl Msg {
    /// A broadcast message from an unconfigured client, the DISCOVER shape.
    fn new(message_type: DhcpMessageType, chaddr: EthernetAddress) -> Self {
        Self {
            message_type,
            chaddr,
            ciaddr: UNSPECIFIED,
            src_ip: UNSPECIFIED,
            flags: DhcpFlags::empty(),
            options: Vec::new(),
        }
    }

    fn opt(mut self, kind: u8, data: &[u8]) -> Self {
        self.options.push((kind, data.to_vec()));
        self
    }

    fn requested_ip(self, addr: Ipv4Address) -> Self {
        self.opt(OPT_REQUESTED_IP, &octets(addr))
    }

    fn server_id(self, addr: Ipv4Address) -> Self {
        self.opt(OPT_SERVER_IDENTIFIER, &octets(addr))
    }

    /// From a configured client straight to the server, the RENEW shape.
    fn unicast_from(mut self, addr: Ipv4Address) -> Self {
        self.ciaddr = addr;
        self.src_ip = addr;
        self
    }
}

/// Build the UDP payload of a client message.
fn payload(msg: &Msg) -> Vec<u8> {
    let mut dhcp = vec![1, 1, 6, 0];
    dhcp.extend_from_slice(&XID.to_be_bytes());
    dhcp.extend_from_slice(&[0, 0]);
    dhcp.extend_from_slice(&msg.flags.bits.to_be_bytes());
    dhcp.extend_from_slice(&octets(msg.ciaddr));
    dhcp.extend_from_slice(&[0; 12]);
    dhcp.extend_from_slice(&hw_octets(msg.chaddr));
    dhcp.extend_from_slice(&[0; 202]);
    dhcp.extend_from_slice(&DHCP_MAGIC_NUMBER.to_be_bytes());
    assert_eq!(dhcp.len(), DHCP_HEADER_LEN);
    dhcp.extend_from_slice(&[OPT_DHCP_MESSAGE_TYPE, 1, msg.message_type.to_number()]);
    for (kind, data) in &msg.options {
        dhcp.push(*kind);
        dhcp.push(data.len() as u8);
        dhcp.extend_from_slice(data);
    }
    dhcp.push(OPT_END);
    dhcp
}

/// Hand a payload to the server.
fn receive(stack: &mut TestStack, src_ip: Ipv4Address, payload: &[u8], t: i64) {
    stack.inner.now = at(t);
    stack
        .ifaces
        .get_mut(IFACE.index)
        .dhcpv4_server_process(&mut stack.inner, src_ip, payload);
}

/// Feed one client message to the server.
fn send(stack: &mut TestStack, msg: Msg, t: i64) {
    receive(stack, msg.src_ip, &payload(&msg), t);
}

/// What a transmitted reply is: the addressing and the DHCP payload.
struct SentDhcp {
    src_ip: Ipv4Address,
    dst_ip: Ipv4Address,
    dst_hw: EthernetAddress,
    dhcp: Vec<u8>,
}

fn ipv4_at(bytes: &[u8], at: usize) -> Ipv4Address {
    Ipv4Address::new(bytes[at], bytes[at + 1], bytes[at + 2], bytes[at + 3])
}

fn parse_sent(frame: &[u8]) -> SentDhcp {
    assert_eq!(&frame[6..12], &hw_octets(SERVER_HW));
    assert_eq!(&frame[12..14], &[0x08, 0x00]);
    let dst_hw = EthernetAddress::read(frame, 0);
    let ip = &frame[ETHERNET_HEADER_LEN..];
    assert_eq!(ip[0], 0x45);
    assert_eq!(u16::from_be_bytes([ip[2], ip[3]]) as usize, ip.len());
    assert_eq!(checksum_of(sum_words(&ip[..IPV4_HEADER_LEN])), 0);
    assert_eq!(ip[9], 17);
    let src_ip = ipv4_at(ip, 12);
    let dst_ip = ipv4_at(ip, 16);
    let udp = &ip[IPV4_HEADER_LEN..];
    let mut pseudo = Vec::new();
    pseudo.extend_from_slice(&ip[12..20]);
    pseudo.extend_from_slice(&[0, 17]);
    pseudo.extend_from_slice(&(udp.len() as u16).to_be_bytes());
    assert_eq!(checksum_of(sum_words(&pseudo) + sum_words(udp)), 0);
    assert_eq!(u16::from_be_bytes([udp[0], udp[1]]), DHCP_SERVER_PORT);
    assert_eq!(u16::from_be_bytes([udp[2], udp[3]]), DHCP_CLIENT_PORT);
    assert_eq!(u16::from_be_bytes([udp[4], udp[5]]) as usize, udp.len());
    // Replies are padded to the BOOTP minimum message size.
    assert!(udp.len() - UDP_HEADER_LEN >= MIN_MESSAGE_SIZE);
    SentDhcp { src_ip, dst_ip, dst_hw, dhcp: udp[UDP_HEADER_LEN..].to_vec() }
}

/// The last transmitted frame, parsed.
fn last_sent(tx: &Sent) -> SentDhcp {
    parse_sent(tx.borrow().last().unwrap())
}

fn dhcp(sent: &SentDhcp) -> DhcpPacket<'_> {
    DhcpPacket::new_checked(&sent.dhcp).unwrap()
}

fn message_type(sent: &SentDhcp) -> DhcpMessageType {
    dhcp(sent).message_type().unwrap()
}

/// The kinds of the options of a message, in order.
fn option_kinds(message: &[u8]) -> Vec<u8> {
    let mut kinds = Vec::new();
    let mut at = DHCP_HEADER_LEN;
    while message[at] != OPT_END {
        if message[at] == OPT_PAD {
            at += 1;
        } else {
            kinds.push(message[at]);
            at += 2 + message[at + 1] as usize;
        }
    }
    kinds
}

/// The lease table, cloned out of the short-lived interface view.
fn leases(stack: &mut TestStack) -> Vec<DhcpServerLease> {
    stack.iface(IFACE).dhcpv4_server_leases().to_vec()
}

/// Drive a client to a bound lease on `POOL_START`: DISCOVER at `t`, REQUEST
/// at `t + 1`.
fn bind_first_client(stack: &mut TestStack, t: i64) {
    send(stack, Msg::new(DhcpMessageType::Discover, CLIENT_HW), t);
    send(
        stack,
        Msg::new(DhcpMessageType::Request, CLIENT_HW)
            .server_id(SERVER_IP)
            .requested_ip(POOL_START),
        t + 1,
    );
}

#[test]
fn test_discover_request_ack() {
    let (mut stack, tx) = test_stack();

    // DISCOVER: an OFFER comes back, unicast straight to the client's MAC
    // and offered address (no broadcast flag, no ciaddr).
    send(&mut stack, Msg::new(DhcpMessageType::Discover, CLIENT_HW), 0);
    assert_eq!(tx.borrow().len(), 1);
    let sent = last_sent(&tx);
    assert_eq!(message_type(&sent), DhcpMessageType::Offer);
    assert_eq!(sent.src_ip, SERVER_IP);
    assert_eq!(sent.dst_ip, POOL_START);
    assert_eq!(sent.dst_hw, CLIENT_HW);
    {
        let packet = dhcp(&sent);
        assert_eq!(packet.opcode(), DHCP_OP_REPLY);
        assert_eq!(packet.transaction_id(), XID);
        assert_eq!(packet.your_ip(), POOL_START);
        assert_eq!(packet.client_ip(), UNSPECIFIED);
        assert_eq!(packet.relay_agent_ip(), UNSPECIFIED);
        assert_eq!(packet.client_hardware_address(), CLIENT_HW);
        assert_eq!(
            packet.option(OPT_SERVER_IDENTIFIER),
            Some(&octets(SERVER_IP)[..])
        );
        assert_eq!(
            packet.option(OPT_IP_LEASE_TIME),
            Some(&(LEASE_SECS as u32).to_be_bytes()[..])
        );
        assert_eq!(packet.option(OPT_SUBNET_MASK), Some(&[255, 255, 255, 0][..]));
        assert_eq!(packet.option(OPT_ROUTER), Some(&octets(SERVER_IP)[..]));
        assert_eq!(packet.option(OPT_DOMAIN_NAME_SERVER), Some(&octets(DNS_IP)[..]));
        // RFC 2132 §3.3: the subnet mask must come before the router.
        let kinds: Vec<u8> = option_kinds(&sent.dhcp);
        assert_eq!(
            kinds,
            &[
                OPT_DHCP_MESSAGE_TYPE,
                OPT_SERVER_IDENTIFIER,
                OPT_IP_LEASE_TIME,
                OPT_SUBNET_MASK,
                OPT_ROUTER,
                OPT_DOMAIN_NAME_SERVER,
            ]
        );
    }
    {
        let leases = leases(&mut stack);
        assert_eq!(leases.len(), 1);
        assert_eq!(leases[0].address(), POOL_START);
        assert_eq!(leases[0].hardware_addr(), CLIENT_HW);
        assert_eq!(leases[0].client_id(), None);
        assert_eq!(leases[0].state(), DhcpServerLeaseState::Offered);
        assert_eq!(leases[0].expires_at(), at(0).after(Duration::from_secs(OFFER_TIMEOUT)));
    }

    // REQUEST of the offer: an ACK, and the lease is bound.
    send(
        &mut stack,
        Msg::new(DhcpMessageType::Request, CLIENT_HW)
            .server_id(SERVER_IP)
            .requested_ip(POOL_START),
        1,
    );
    assert_eq!(tx.borrow().len(), 2);
    let sent = last_sent(&tx);
    assert_eq!(message_type(&sent), DhcpMessageType::Ack);
    assert_eq!(sent.dst_ip, POOL_START);
    assert_eq!(sent.dst_hw, CLIENT_HW);
    {
        let packet = dhcp(&sent);
        assert_eq!(packet.your_ip(), POOL_START);
        assert_eq!(
            packet.option(OPT_IP_LEASE_TIME),
            Some(&(LEASE_SECS as u32).to_be_bytes()[..])
        );
    }
    {
        let leases = leases(&mut stack);
        assert_eq!(leases.len(), 1);
        assert_eq!(leases[0].state(), DhcpServerLeaseState::Bound);
        assert_eq!(leases[0].expires_at(), at(1).after(Duration::from_secs(LEASE_SECS)));
    }
}

#[test]
fn test_broadcast_flag() {
    let (mut stack, tx) = test_stack();
    let mut msg = Msg::new(DhcpMessageType::Discover, CLIENT_HW);
    msg.flags = DhcpFlags { bits: DHCP_FLAG_BROADCAST };
    send(&mut stack, msg, 0);
    let sent = last_sent(&tx);
    assert_eq!(message_type(&sent), DhcpMessageType::Offer);
    assert_eq!(sent.dst_ip, BROADCAST);
    assert_eq!(sent.dst_hw, BROADCAST_HW);
    // The flags are echoed back (RFC 2131 table 3).
    let packet = dhcp(&sent);
    assert_eq!(packet.flags(), DhcpFlags { bits: DHCP_FLAG_BROADCAST });
}

#[test]
fn test_two_clients_get_distinct_addresses() {
    let (mut stack, tx) = test_stack();
    bind_first_client(&mut stack, 0);
    send(&mut stack, Msg::new(DhcpMessageType::Discover, CLIENT2_HW), 2);
    let sent = last_sent(&tx);
    assert_eq!(message_type(&sent), DhcpMessageType::Offer);
    assert_eq!(dhcp(&sent).your_ip(), POOL_END);
}

#[test]
fn test_requested_ip_honored() {
    let (mut stack, tx) = test_stack();
    send(
        &mut stack,
        Msg::new(DhcpMessageType::Discover, CLIENT_HW).requested_ip(POOL_END),
        0,
    );
    let sent = last_sent(&tx);
    assert_eq!(dhcp(&sent).your_ip(), POOL_END);
}

#[test]
fn test_request_for_other_server_releases_the_offer() {
    let (mut stack, tx) = test_stack();
    send(&mut stack, Msg::new(DhcpMessageType::Discover, CLIENT_HW), 0);
    assert_eq!(tx.borrow().len(), 1);

    // The client picks another server: no reply, and the offer is released.
    send(
        &mut stack,
        Msg::new(DhcpMessageType::Request, CLIENT_HW)
            .server_id(OTHER_SERVER_IP)
            .requested_ip(POOL_START),
        1,
    );
    assert_eq!(tx.borrow().len(), 1);
    assert_eq!(leases(&mut stack)[0].state(), DhcpServerLeaseState::Released);

    // The released address is available to the next client at once.
    send(&mut stack, Msg::new(DhcpMessageType::Discover, CLIENT2_HW), 2);
    let sent = last_sent(&tx);
    assert_eq!(dhcp(&sent).your_ip(), POOL_START);
}

#[test]
fn test_request_of_taken_address_naks() {
    let (mut stack, tx) = test_stack();
    bind_first_client(&mut stack, 0);

    // Another client asks us for the same address: NAK, broadcast, with the
    // server identifier and no lease time or parameters (RFC 2131 table 3).
    send(
        &mut stack,
        Msg::new(DhcpMessageType::Request, CLIENT2_HW)
            .server_id(SERVER_IP)
            .requested_ip(POOL_START),
        2,
    );
    let sent = last_sent(&tx);
    assert_eq!(message_type(&sent), DhcpMessageType::Nak);
    assert_eq!(sent.dst_ip, BROADCAST);
    assert_eq!(sent.dst_hw, BROADCAST_HW);
    let packet = dhcp(&sent);
    assert_eq!(packet.your_ip(), UNSPECIFIED);
    assert_eq!(
        packet.option(OPT_SERVER_IDENTIFIER),
        Some(&octets(SERVER_IP)[..])
    );
    assert_eq!(packet.option(OPT_IP_LEASE_TIME), None);
    assert_eq!(packet.option(OPT_SUBNET_MASK), None);
    assert!(packet.option(OPT_MESSAGE).is_some());

    // The holder keeps its lease.
    let leases = leases(&mut stack);
    assert_eq!(leases.len(), 1);
    assert_eq!(leases[0].state(), DhcpServerLeaseState::Bound);
}

#[test]
fn test_renew() {
    let (mut stack, tx) = test_stack();
    bind_first_client(&mut stack, 0);

    // A renewal: unicast, ciaddr filled, no requested-ip, no server-id.
    // The ACK goes back to ciaddr and the lease is extended.
    send(
        &mut stack,
        Msg::new(DhcpMessageType::Request, CLIENT_HW).unicast_from(POOL_START),
        100,
    );
    let sent = last_sent(&tx);
    assert_eq!(message_type(&sent), DhcpMessageType::Ack);
    assert_eq!(sent.dst_ip, POOL_START);
    assert_eq!(sent.dst_hw, CLIENT_HW);
    {
        let packet = dhcp(&sent);
        assert_eq!(packet.client_ip(), POOL_START);
        assert_eq!(packet.your_ip(), POOL_START);
    }
    let leases = leases(&mut stack);
    assert_eq!(leases[0].state(), DhcpServerLeaseState::Bound);
    assert_eq!(leases[0].expires_at(), at(100).after(Duration::from_secs(LEASE_SECS)));
}

#[test]
fn test_renew_after_server_restart() {
    // A server that lost its lease table adopts a renewal of a free pool
    // address, so clients keep their addresses across a reboot.
    let (mut stack, tx) = test_stack();
    send(
        &mut stack,
        Msg::new(DhcpMessageType::Request, CLIENT_HW).unicast_from(POOL_START),
        0,
    );
    let sent = last_sent(&tx);
    assert_eq!(message_type(&sent), DhcpMessageType::Ack);
    let leases = leases(&mut stack);
    assert_eq!(leases.len(), 1);
    assert_eq!(leases[0].address(), POOL_START);
    assert_eq!(leases[0].state(), DhcpServerLeaseState::Bound);

    // A renewal of an address outside the pool is not ours: silence.
    send(
        &mut stack,
        Msg::new(DhcpMessageType::Request, CLIENT2_HW).unicast_from(Ipv4Address::new(192, 168, 1, 200)),
        1,
    );
    assert_eq!(tx.borrow().len(), 1);
}

#[test]
fn test_init_reboot() {
    let (mut stack, tx) = test_stack();
    bind_first_client(&mut stack, 0);

    // INIT-REBOOT of the right address: ACK.
    send(
        &mut stack,
        Msg::new(DhcpMessageType::Request, CLIENT_HW).requested_ip(POOL_START),
        2,
    );
    let sent = last_sent(&tx);
    assert_eq!(message_type(&sent), DhcpMessageType::Ack);

    // INIT-REBOOT of the wrong address: NAK.
    send(
        &mut stack,
        Msg::new(DhcpMessageType::Request, CLIENT_HW).requested_ip(POOL_END),
        3,
    );
    let sent = last_sent(&tx);
    assert_eq!(message_type(&sent), DhcpMessageType::Nak);

    // INIT-REBOOT of an address on the wrong network: NAK (RFC 2131 §4.3.2).
    send(
        &mut stack,
        Msg::new(DhcpMessageType::Request, CLIENT_HW).requested_ip(Ipv4Address::new(10, 0, 0, 5)),
        4,
    );
    let sent = last_sent(&tx);
    assert_eq!(message_type(&sent), DhcpMessageType::Nak);

    // INIT-REBOOT from a client we have no record of: silence, another
    // server may know it (RFC 2131 §4.3.2).
    let before = tx.borrow().len();
    send(
        &mut stack,
        Msg::new(DhcpMessageType::Request, CLIENT2_HW).requested_ip(POOL_END),
        5,
    );
    assert_eq!(tx.borrow().len(), before);
}

#[test]
fn test_release() {
    let (mut stack, tx) = test_stack();
    bind_first_client(&mut stack, 0);

    let mut msg = Msg::new(DhcpMessageType::Release, CLIENT_HW).server_id(SERVER_IP);
    msg.ciaddr = POOL_START;
    msg.src_ip = POOL_START;
    send(&mut stack, msg, 2);
    assert_eq!(tx.borrow().len(), 2); // no reply to RELEASE
    assert_eq!(leases(&mut stack)[0].state(), DhcpServerLeaseState::Released);

    // The address is available again, and the record makes a returning
    // client get it back.
    send(&mut stack, Msg::new(DhcpMessageType::Discover, CLIENT_HW), 3);
    let sent = last_sent(&tx);
    assert_eq!(dhcp(&sent).your_ip(), POOL_START);
}

#[test]
fn test_decline() {
    let (mut stack, tx) = test_stack();
    bind_first_client(&mut stack, 0);

    // The client reports the address as in use: it is held out of the pool.
    send(
        &mut stack,
        Msg::new(DhcpMessageType::Decline, CLIENT_HW)
            .server_id(SERVER_IP)
            .requested_ip(POOL_START),
        2,
    );
    assert_eq!(tx.borrow().len(), 2); // no reply to DECLINE
    {
        let leases = leases(&mut stack);
        assert_eq!(leases[0].state(), DhcpServerLeaseState::Declined);
        assert_eq!(leases[0].expires_at(), at(2).after(Duration::from_secs(DECLINE_TIMEOUT)));
    }

    // The declining client discovers again and gets a different address.
    send(&mut stack, Msg::new(DhcpMessageType::Discover, CLIENT_HW), 3);
    let sent = last_sent(&tx);
    assert_eq!(dhcp(&sent).your_ip(), POOL_END);

    // While the hold lasts, the declined address is not handed out even
    // with the pool otherwise empty.
    let before = tx.borrow().len();
    send(&mut stack, Msg::new(DhcpMessageType::Discover, CLIENT2_HW), 4);
    assert_eq!(tx.borrow().len(), before);

    // After it, it is.
    send(
        &mut stack,
        Msg::new(DhcpMessageType::Discover, CLIENT2_HW),
        2 + DECLINE_TIMEOUT as i64 + 1,
    );
    let sent = last_sent(&tx);
    assert_eq!(dhcp(&sent).your_ip(), POOL_START);
}

#[test]
fn test_pool_exhaustion_and_expiry() {
    let (mut stack, tx) = test_stack();
    bind_first_client(&mut stack, 0);
    send(
        &mut stack,
        Msg::new(DhcpMessageType::Request, CLIENT2_HW)
            .server_id(SERVER_IP)
            .requested_ip(POOL_END),
        2,
    );
    assert_eq!(tx.borrow().len(), 3);

    // Both addresses taken: a third client gets nothing.
    send(&mut stack, Msg::new(DhcpMessageType::Discover, CLIENT3_HW), 3);
    assert_eq!(tx.borrow().len(), 3);

    // Once the leases run out, it gets the first expired one.
    send(
        &mut stack,
        Msg::new(DhcpMessageType::Discover, CLIENT3_HW),
        LEASE_SECS as i64 + 2,
    );
    let sent = last_sent(&tx);
    assert_eq!(message_type(&sent), DhcpMessageType::Offer);
    assert_eq!(dhcp(&sent).your_ip(), POOL_START);
}

#[test]
fn test_expired_client_keeps_its_address() {
    let (mut stack, tx) = test_stack();
    bind_first_client(&mut stack, 0);

    // Long after the lease expired, the record still hands the returning
    // client the same address.
    send(
        &mut stack,
        Msg::new(DhcpMessageType::Discover, CLIENT_HW),
        LEASE_SECS as i64 + 100,
    );
    let sent = last_sent(&tx);
    assert_eq!(dhcp(&sent).your_ip(), POOL_START);
}

#[test]
fn test_remove_lease() {
    let (mut stack, _tx) = test_stack();
    bind_first_client(&mut stack, 0);

    assert!(stack.iface(IFACE).remove_dhcpv4_server_lease(POOL_START));
    assert!(stack.iface(IFACE).dhcpv4_server_leases().is_empty());
    assert!(!stack.iface(IFACE).remove_dhcpv4_server_lease(POOL_START));

    // The address is free for someone else now.
    send(&mut stack, Msg::new(DhcpMessageType::Discover, CLIENT2_HW), 2);
    let leases = leases(&mut stack);
    assert_eq!(leases.len(), 1);
    assert_eq!(leases[0].address(), POOL_START);
    assert_eq!(leases[0].hardware_addr(), CLIENT2_HW);
}

#[test]
fn test_inform() {
    let (mut stack, tx) = test_stack();

    // A statically-configured host asks for the other parameters: an ACK
    // with them, no lease time, no yiaddr, and no lease recorded.
    let client_ip = Ipv4Address::new(192, 168, 1, 77);
    send(
        &mut stack,
        Msg::new(DhcpMessageType::Inform, CLIENT_HW).unicast_from(client_ip),
        0,
    );
    let sent = last_sent(&tx);
    assert_eq!(message_type(&sent), DhcpMessageType::Ack);
    assert_eq!(sent.dst_ip, client_ip);
    assert_eq!(sent.dst_hw, CLIENT_HW);
    let packet = dhcp(&sent);
    assert_eq!(packet.your_ip(), UNSPECIFIED);
    assert_eq!(packet.client_ip(), client_ip);
    assert_eq!(packet.option(OPT_IP_LEASE_TIME), None);
    assert_eq!(packet.option(OPT_SUBNET_MASK), Some(&[255, 255, 255, 0][..]));
    assert_eq!(packet.option(OPT_ROUTER), Some(&octets(SERVER_IP)[..]));
    assert!(stack.iface(IFACE).dhcpv4_server_leases().is_empty());
}

#[test]
fn test_client_id_keying() {
    let (mut stack, tx) = test_stack();
    let id = [1, 0x02, 0, 0, 0, 0, 0x42];

    // Bind with a client identifier.
    send(
        &mut stack,
        Msg::new(DhcpMessageType::Discover, CLIENT_HW).opt(OPT_CLIENT_ID, &id),
        0,
    );
    send(
        &mut stack,
        Msg::new(DhcpMessageType::Request, CLIENT_HW)
            .opt(OPT_CLIENT_ID, &id)
            .server_id(SERVER_IP)
            .requested_ip(POOL_START),
        1,
    );
    {
        let leases = leases(&mut stack);
        assert_eq!(leases[0].client_id(), Some(&id[..]));
        assert_eq!(leases[0].state(), DhcpServerLeaseState::Bound);
    }

    // The same identifier from another hardware address is the same client
    // (RFC 2131 §4.2) and keeps its address.
    send(
        &mut stack,
        Msg::new(DhcpMessageType::Discover, CLIENT2_HW).opt(OPT_CLIENT_ID, &id),
        2,
    );
    let sent = last_sent(&tx);
    assert_eq!(sent.dst_hw, CLIENT2_HW);
    assert_eq!(dhcp(&sent).your_ip(), POOL_START);
    {
        let leases = leases(&mut stack);
        assert_eq!(leases.len(), 1);
        assert_eq!(leases[0].hardware_addr(), CLIENT2_HW);
    }

    // An identifier too long to store falls back to hardware address keying.
    let long_id = [0xab; DHCP_SERVER_CLIENT_ID_SIZE + 1];
    send(
        &mut stack,
        Msg::new(DhcpMessageType::Discover, CLIENT3_HW).opt(OPT_CLIENT_ID, &long_id),
        3,
    );
    let leases = leases(&mut stack);
    assert_eq!(leases.len(), 2);
    assert_eq!(leases[1].hardware_addr(), CLIENT3_HW);
    assert_eq!(leases[1].client_id(), None);
}

#[test]
fn test_requested_lease_duration() {
    let (mut stack, tx) = test_stack();

    // A shorter lease than the configured one is granted.
    send(
        &mut stack,
        Msg::new(DhcpMessageType::Discover, CLIENT_HW).opt(OPT_IP_LEASE_TIME, &100u32.to_be_bytes()),
        0,
    );
    let sent = last_sent(&tx);
    let packet = dhcp(&sent);
    assert_eq!(packet.option(OPT_IP_LEASE_TIME), Some(&100u32.to_be_bytes()[..]));

    // A longer one is capped at the configured duration.
    send(
        &mut stack,
        Msg::new(DhcpMessageType::Discover, CLIENT_HW).opt(OPT_IP_LEASE_TIME, &100000u32.to_be_bytes()),
        1,
    );
    let sent = last_sent(&tx);
    let packet = dhcp(&sent);
    assert_eq!(
        packet.option(OPT_IP_LEASE_TIME),
        Some(&(LEASE_SECS as u32).to_be_bytes()[..])
    );
}

#[test]
fn test_extra_options() {
    let (mut stack, tx) = test_stack();
    let mut config = test_config();
    config.outgoing_options = &[DhcpOption {
        kind: OPT_NTP_SERVERS,
        data: &[192, 168, 1, 2],
    }];
    stack.iface(IFACE).set_dhcpv4_server(Some(config));

    send(&mut stack, Msg::new(DhcpMessageType::Discover, CLIENT_HW), 0);
    let sent = last_sent(&tx);
    let packet = dhcp(&sent);
    assert_eq!(packet.option(OPT_NTP_SERVERS), Some(&[192, 168, 1, 2][..]));
}

#[test]
fn test_relayed_request_ignored() {
    let (mut stack, tx) = test_stack();
    let mut msg = payload(&Msg::new(DhcpMessageType::Discover, CLIENT_HW));
    // Patch giaddr in: a relayed request is ignored.
    msg[24..28].copy_from_slice(&octets(Ipv4Address::new(10, 0, 0, 1)));
    receive(&mut stack, UNSPECIFIED, &msg, 0);
    assert_eq!(tx.borrow().len(), 0);
}

#[test]
fn test_no_ipv4_address_is_silent() {
    let tx: Sent = Rc::new(RefCell::new(Vec::new()));
    let mut stack = TestStack::new();
    let driver = TestDevice { checksum: ChecksumCapabilities::none(), tx: tx.clone() };
    let handle = stack.add_iface(driver).unwrap();
    stack.iface(handle).set_dhcpv4_server(Some(test_config()));

    send(&mut stack, Msg::new(DhcpMessageType::Discover, CLIENT_HW), 1);
    assert_eq!(tx.borrow().len(), 0);
}

/// A device that computes the IPv4 and UDP checksums itself gets both fields
/// zeroed in the replies.
#[test]
fn test_checksum_offload() {
    let mut caps = ChecksumCapabilities::none();
    caps.ipv4 = ChecksumOffload { rx: true, tx: true };
    caps.udp = ChecksumOffload { rx: true, tx: true };
    let (mut stack, tx) = test_stack_with_checksum(caps);

    send(&mut stack, Msg::new(DhcpMessageType::Discover, CLIENT_HW), 0);
    let frame = tx.borrow()[0].clone();
    let ip = &frame[ETHERNET_HEADER_LEN..];
    assert_eq!(&ip[10..12], &[0, 0]);
    assert_eq!(ip[9], 17);
    let udp = &ip[IPV4_HEADER_LEN..];
    assert_eq!(u16::from_be_bytes([udp[0], udp[1]]), DHCP_SERVER_PORT);
    assert_eq!(&udp[6..8], &[0, 0]);
}

/// A client numbered `n`.
fn client(n: u8) -> EthernetAddress {
    EthernetAddress(0x02, 0, 0, 0, 1, n)
}

/// A full table makes room by forgetting a lease that is over, the one that has been
/// for longest. While all of them run, nobody else is served.
#[test]
fn full_table_forgets_the_longest_expired() {
    let (mut stack, tx) = test_stack();
    let mut config = DhcpServerConfig::new(POOL_START, Ipv4Address::new(192, 168, 1, 200));
    config.lease_duration = Duration::from_secs(LEASE_SECS);
    stack.iface(IFACE).set_dhcpv4_server(Some(config));
    let count = DHCP_SERVER_LEASE_COUNT as u8;
    for n in 0..count {
        send(&mut stack, Msg::new(DhcpMessageType::Discover, client(n)), n as i64);
    }
    assert_eq!(leases(&mut stack).len(), DHCP_SERVER_LEASE_COUNT);
    assert_eq!(tx.borrow().len(), DHCP_SERVER_LEASE_COUNT);
    send(&mut stack, Msg::new(DhcpMessageType::Discover, client(count)), 20);
    assert_eq!(tx.borrow().len(), DHCP_SERVER_LEASE_COUNT);
    // Two of the offers have run out, the first one first.
    let later = OFFER_TIMEOUT as i64 + 1;
    send(&mut stack, Msg::new(DhcpMessageType::Discover, client(count)), later);
    assert_eq!(tx.borrow().len(), DHCP_SERVER_LEASE_COUNT + 1);
    let table = leases(&mut stack);
    assert_eq!(table.len(), DHCP_SERVER_LEASE_COUNT);
    assert!(!table.iter().any(|l| l.hardware_addr() == client(0)));
    assert!(table.iter().any(|l| l.hardware_addr() == client(1)));
    assert!(table.iter().any(|l| l.hardware_addr() == client(count)));
}

#[test]
fn malformed_messages_are_ignored() {
    let (mut stack, tx) = test_stack();
    let good = payload(&Msg::new(DhcpMessageType::Discover, CLIENT_HW));
    // A reply, another hardware type or length, another magic number, no type.
    for (at, value) in [(0, 2), (1, 6), (2, 8), (236, 0), (240, OPT_PAD)] {
        let mut broken = good.clone();
        broken[at] = value;
        receive(&mut stack, UNSPECIFIED, &broken, 0);
    }
    receive(&mut stack, UNSPECIFIED, &good[..DHCP_HEADER_LEN - 1], 0);
    receive(&mut stack, UNSPECIFIED, &[], 0);
    assert!(tx.borrow().is_empty());
    assert!(leases(&mut stack).is_empty());
    receive(&mut stack, UNSPECIFIED, &good, 0);
    assert_eq!(tx.borrow().len(), 1);
}

#[test]
fn short_lease_is_raised_to_the_minimum() {
    let (mut stack, tx) = test_stack();
    send(
        &mut stack,
        Msg::new(DhcpMessageType::Discover, CLIENT_HW).opt(OPT_IP_LEASE_TIME, &1u32.to_be_bytes()),
        0,
    );
    let sent = last_sent(&tx);
    assert_eq!(
        dhcp(&sent).option(OPT_IP_LEASE_TIME),
        Some(&(MIN_LEASE_DURATION as u32).to_be_bytes()[..])
    );
}

/// The answer is lost without a packet buffer, but not the lease.
#[test]
fn reply_needs_a_packet_buffer() {
    let (mut stack, tx) = test_stack();
    let mut held = Vec::new();
    while let Some(buf) = PacketBuf::try_new(&stack.inner.pool) {
        held.push(buf);
    }
    send(&mut stack, Msg::new(DhcpMessageType::Discover, CLIENT_HW), 0);
    assert!(tx.borrow().is_empty());
    assert_eq!(leases(&mut stack).len(), 1);
    drop(held);
    send(&mut stack, Msg::new(DhcpMessageType::Discover, CLIENT_HW), 1);
    assert_eq!(dhcp(&last_sent(&tx)).your_ip(), POOL_START);
}

#[test]
fn configuration_has_to_fit_in_a_packet() {
    const LONG: [u8; 255] = [7; 255];
    const TOO_LONG: [u8; 256] = [7; 256];
    let mut config = test_config();
    assert!(config.fits());
    config.outgoing_options = &[DhcpOption { kind: 43, data: &LONG }];
    assert!(config.fits());
    config.outgoing_options = &[DhcpOption { kind: 43, data: &TOO_LONG }];
    assert!(!config.fits());
    config.outgoing_options = &[
        DhcpOption { kind: 43, data: &LONG },
        DhcpOption { kind: 43, data: &LONG },
        DhcpOption { kind: 43, data: &LONG },
        DhcpOption { kind: 43, data: &LONG },
        DhcpOption { kind: 43, data: &LONG },
    ];
    assert!(!config.fits());
    // Four of them are sent whole.
    config.outgoing_options = &[
        DhcpOption { kind: 43, data: &LONG },
        DhcpOption { kind: 44, data: &LONG },
        DhcpOption { kind: 45, data: &LONG },
        DhcpOption { kind: 46, data: &LONG },
    ];
    assert!(config.fits());
    let (mut stack, tx) = test_stack();
    stack.iface(IFACE).set_dhcpv4_server(Some(config));
    send(&mut stack, Msg::new(DhcpMessageType::Discover, CLIENT_HW), 0);
    let sent = last_sent(&tx);
    assert_eq!(dhcp(&sent).option(46), Some(&LONG[..]));
}

/// The network, broadcast and server addresses are skipped even inside the pool.
#[test]
fn special_addresses_are_not_leased() {
    let (mut stack, tx) = test_stack();
    let config = DhcpServerConfig::new(
        Ipv4Address::new(192, 168, 1, 0),
        Ipv4Address::new(192, 168, 1, 255),
    );
    assert_eq!(config.lease_duration, Duration::from_secs(3600));
    stack.iface(IFACE).set_dhcpv4_server(Some(config));
    for special in [0, 1, 255] {
        send(
            &mut stack,
            Msg::new(DhcpMessageType::Discover, CLIENT_HW)
                .requested_ip(Ipv4Address::new(192, 168, 1, special)),
            0,
        );
        assert_eq!(dhcp(&last_sent(&tx)).your_ip(), Ipv4Address::new(192, 168, 1, 2));
    }
}

/// A client known by its identifier may come back from another hardware address. Its
/// lease shows the one its latest message came from, whatever the message is.
#[test]
fn lease_follows_the_hardware_address() {
    let id = [1, 2, 3];
    let other_server = |msg: Msg| msg.server_id(OTHER_SERVER_IP).requested_ip(POOL_START);
    let messages: Vec<(DhcpMessageType, fn(Msg) -> Msg, DhcpServerLeaseState)> = vec![
        (
            DhcpMessageType::Release,
            |msg| msg.unicast_from(POOL_START),
            DhcpServerLeaseState::Released,
        ),
        // A release of another address, which is not granted.
        (
            DhcpMessageType::Release,
            |msg| msg.unicast_from(POOL_END),
            DhcpServerLeaseState::Bound,
        ),
        (
            DhcpMessageType::Decline,
            |msg| msg.requested_ip(POOL_START),
            DhcpServerLeaseState::Declined,
        ),
        (DhcpMessageType::Inform, |msg| msg.unicast_from(POOL_END), DhcpServerLeaseState::Bound),
        (DhcpMessageType::Request, other_server, DhcpServerLeaseState::Released),
        // A request that is refused.
        (
            DhcpMessageType::Request,
            |msg| msg.server_id(SERVER_IP).requested_ip(POOL_END),
            DhcpServerLeaseState::Bound,
        ),
        (DhcpMessageType::Discover, |msg| msg, DhcpServerLeaseState::Bound),
    ];
    for (message_type, shape, state) in messages {
        let (mut stack, _tx) = test_stack();
        send(
            &mut stack,
            Msg::new(DhcpMessageType::Request, CLIENT_HW)
                .opt(OPT_CLIENT_ID, &id)
                .server_id(SERVER_IP)
                .requested_ip(POOL_START),
            0,
        );
        assert_eq!(leases(&mut stack)[0].hardware_addr(), CLIENT_HW);
        send(&mut stack, shape(Msg::new(message_type, CLIENT2_HW).opt(OPT_CLIENT_ID, &id)), 1);
        let leases = leases(&mut stack);
        assert_eq!(leases.len(), 1);
        assert_eq!(leases[0].hardware_addr(), CLIENT2_HW);
        assert_eq!(leases[0].address(), POOL_START);
        assert_eq!(leases[0].state(), state);
    }
}

#[test]
fn reply_is_built_where_there_is_a_buffer() {
    let pool = xarxa::driver::PacketPool::new();
    let cidr = xarxa::wire::Ipv4Cidr::new(SERVER_IP, 24);
    let caps = ChecksumCapabilities::none();
    let bytes = payload(&Msg::new(DhcpMessageType::Discover, CLIENT_HW));
    let packet = DhcpPacket::new_checked(&bytes).unwrap();
    let discover = DhcpMessageType::Discover;
    let config = test_config();
    let mut server = Server::new(config.clone());
    assert!(server.handle_in(None, at(0), cidr, &caps, discover, &packet).is_none());
    // The offer is on record all the same.
    assert_eq!(server.leases().len(), 1);
    let buf = PacketBuf::try_new(&pool);
    let (reply, dst_addr, dst_hw) =
        server.handle_in(buf, at(0), cidr, &caps, discover, &packet).unwrap();
    assert_eq!((dst_addr, dst_hw), (POOL_START, CLIENT_HW));
    let offer = DhcpPacket::new_checked(&reply.as_slice()[UDP_HEADER_LEN..]).unwrap();
    assert_eq!(offer.your_ip(), POOL_START);
    // A message that gets no reply.
    let buf = PacketBuf::try_new(&pool);
    let release = DhcpMessageType::Release;
    assert!(server.handle_in(buf, at(0), cidr, &caps, release, &packet).is_none());
    // The copy of a configuration is the same configuration.
    assert_eq!(config.dns_servers.as_slice(), config.clone().dns_servers.as_slice());
    assert_eq!(config.clone().gateway, Some(SERVER_IP));
}

/// Without a gateway and without DNS servers, clients are told of none.
#[test]
fn nothing_is_named_that_is_not_configured() {
    let (mut stack, tx) = test_stack();
    stack.iface(IFACE).set_dhcpv4_server(Some(DhcpServerConfig::new(POOL_START, POOL_END)));
    send(&mut stack, Msg::new(DhcpMessageType::Discover, CLIENT_HW), 0);
    let sent = last_sent(&tx);
    assert_eq!(dhcp(&sent).option(OPT_ROUTER), None);
    assert_eq!(dhcp(&sent).option(OPT_DOMAIN_NAME_SERVER), None);
    assert!(dhcp(&sent).option(OPT_IP_LEASE_TIME).is_some());
}

/// Hand a message to the server, with this buffer for the reply.
fn send_with_buf(stack: &mut TestStack, msg: &Msg, buf: Option<PacketBuf>, now: Instant) {
    stack.inner.now = now;
    stack.ifaces.get_mut(IFACE.index).dhcpv4_server_process_in(
        &mut stack.inner,
        msg.src_ip,
        &payload(msg),
        buf,
    );
}

#[test]
fn reply_that_was_built_is_sent() {
    let (mut stack, tx) = test_stack();
    let discover = Msg::new(DhcpMessageType::Discover, CLIENT_HW);
    send_with_buf(&mut stack, &discover, None, at(0));
    assert!(tx.borrow().is_empty());
    assert_eq!(leases(&mut stack).len(), 1);
    let buf = PacketBuf::try_new(&stack.inner.pool);
    send_with_buf(&mut stack, &discover, buf, at(0));
    assert_eq!(tx.borrow().len(), 1);
    let sent = last_sent(&tx);
    assert_eq!(message_type(&sent), DhcpMessageType::Offer);
    assert_eq!((sent.src_ip, sent.dst_ip, sent.dst_hw), (SERVER_IP, POOL_START, CLIENT_HW));
    assert_eq!(dhcp(&sent).your_ip(), POOL_START);
    // A message that is not for the server.
    let relay = Ipv4Address::new(192, 168, 1, 200);
    let mut relayed = payload(&discover);
    relayed[24..28].copy_from_slice(&octets(relay));
    let buf = PacketBuf::try_new(&stack.inner.pool);
    stack.ifaces.get_mut(IFACE.index).dhcpv4_server_process_in(
        &mut stack.inner,
        UNSPECIFIED,
        &relayed,
        buf,
    );
    assert_eq!(tx.borrow().len(), 1);
}

/// A message that gives no lease a new end is answered at any time.
#[test]
fn inform_is_answered_at_the_end_of_time() {
    let (mut stack, tx) = test_stack();
    let client_ip = Ipv4Address::new(192, 168, 1, 77);
    let inform = Msg::new(DhcpMessageType::Inform, CLIENT_HW).unicast_from(client_ip);
    let buf = PacketBuf::try_new(&stack.inner.pool);
    send_with_buf(&mut stack, &inform, buf, Instant::max_value());
    assert_eq!(message_type(&last_sent(&tx)), DhcpMessageType::Ack);
}

/// Whatever clients ask for, each has one lease, and no two have the same address.
#[test]
fn leases_stay_apart() {
    let (mut stack, _tx) = test_stack();
    for t in 0..4 {
        for hw in [CLIENT_HW, CLIENT2_HW, CLIENT3_HW] {
            send(&mut stack, Msg::new(DhcpMessageType::Discover, hw), t);
            for addr in [POOL_START, POOL_END] {
                send(
                    &mut stack,
                    Msg::new(DhcpMessageType::Request, hw).server_id(SERVER_IP).requested_ip(addr),
                    t,
                );
            }
            let leases = leases(&mut stack);
            assert!(leases.len() <= DHCP_SERVER_LEASE_COUNT);
            for (i, a) in leases.iter().enumerate() {
                for b in &leases[i + 1..] {
                    assert_ne!(a.address(), b.address());
                    assert_ne!(a.hardware_addr(), b.hardware_addr());
                }
            }
        }
    }
    assert_eq!(leases(&mut stack).len(), 2);
}

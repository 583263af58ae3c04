//! Autoconfiguration of an interface.

use std::cell::RefCell;
use std::rc::Rc;
use xarxa::config::{IFACE_ADDR_COUNT, SLAAC_PREFIX_COUNT, SLAAC_ROUTER_COUNT};
use xarxa::driver::{
    CallLog, Capabilities, ChecksumCapabilities, Driver, LinkState, PacketBuf, TxTimestamp,
};
use xarxa::iface::slaac::{Phase, Slaac, SlaacConfig};
use xarxa::iface::{AddrOrigin, IfaceBinding, IfaceHandle};
use xarxa::route::{Route, RouteOrigin};
use xarxa::stack::{LinkWork, Stack};
use xarxa::time::{Clock, Duration, Instant};
use xarxa::wire::ethernet::build_ethernet_header;
use xarxa::wire::ip_packet::build_ipv6_header;
use xarxa::wire::ndisc::{
    build_router_solicit, NdiscPrefixInfoFlags, NdiscRouterFlags, PrefixInformation, RouterAdvert,
};
use xarxa::wire::{
    EthernetAddress, EthernetProtocol, HardwareAddress, IpAddress, IpCidr, IpProtocol, Ipv4Address,
    Ipv6Address, Ipv6Cidr,
};

const HW: EthernetAddress = EthernetAddress(2, 0, 0, 0, 0, 1);
const IFACE: IfaceHandle = IfaceHandle { index: 0 };

struct TestDevice {
    tx: Rc<RefCell<Vec<Vec<u8>>>>,
}

impl Driver for TestDevice {
    fn capabilities(&self) -> Capabilities {
        Capabilities {
            medium: xarxa::driver::Medium::Ethernet,
            max_transmission_unit: 1514,
            lowpan_ip_mtu: 0,
            checksum: ChecksumCapabilities::none(),
        }
    }

    fn hardware_address(&self) -> HardwareAddress {
        HardwareAddress::Ethernet(HW)
    }

    fn link_state(&mut self, _log: &mut CallLog) -> LinkState {
        LinkState::Up
    }

    fn can_transmit(&mut self, _log: &mut CallLog) -> bool {
        true
    }

    fn transmit(&mut self, packet: PacketBuf, _log: &mut CallLog) {
        self.tx.borrow_mut().push(packet.as_slice().to_vec());
    }

    fn poll_tx_timestamp(&mut self, _log: &mut CallLog) -> Option<TxTimestamp> {
        None
    }
}

type TestStack = Stack<TestDevice>;

fn test_stack() -> (TestStack, Rc<RefCell<Vec<Vec<u8>>>>) {
    let tx = Rc::new(RefCell::new(Vec::new()));
    let mut stack = TestStack::new();
    assert_eq!(stack.add_iface(TestDevice { tx: tx.clone() }), Ok(IFACE));
    stack.iface(IFACE).set_slaac(Some(SlaacConfig::default()));
    stack.ifaces.get_mut(0).last_link_state = LinkState::Up;
    (stack, tx)
}

fn link_local() -> Ipv6Address {
    Ipv6Address::new(0xfe80, 0, 0, 0, 0, 0xff, 0xfe00, 1)
}

fn router() -> Ipv6Address {
    Ipv6Address::new(0xfe80, 0, 0, 0, 0, 0, 0, 0x99)
}

fn prefix(site: u8) -> Ipv6Address {
    Ipv6Address::new(0x2001, 0xdb8, site as u16, 0, 0, 0, 0, 0)
}

/// The address the interface forms under a prefix.
fn formed(site: u8) -> IpCidr {
    IpCidr::Ipv6(Ipv6Cidr::new(
        Ipv6Address::new(0x2001, 0xdb8, site as u16, 0, 0, 0xff, 0xfe00, 1),
        64,
    ))
}

/// An advertisement of one prefix, valid for 100 seconds and preferred for 50.
fn advertisement(lifetime: u16, site: u8) -> Vec<u8> {
    let mut bytes = vec![134, 0, 0, 0, 64, 0x40, 0, 0, 0, 0, 0, 0, 0, 0, 0, 0];
    bytes[6..8].copy_from_slice(&lifetime.to_be_bytes());
    bytes.extend_from_slice(&[1, 1, 2, 0, 0, 0, 0, 9]);
    bytes.extend_from_slice(&[3, 4, 64, 0xc0, 0, 0, 0, 100, 0, 0, 0, 50, 0, 0, 0, 0]);
    bytes.extend_from_slice(&prefix(site).bits.to_be_bytes());
    bytes
}

fn receive(stack: &mut TestStack, bytes: &[u8], secs: i64) {
    stack.inner.now = Instant::from_secs(secs);
    let advert = RouterAdvert::new_checked(bytes).unwrap();
    stack.ifaces.get_mut(0).slaac_process_advertisement(&mut stack.inner, router(), &advert);
}

/// Poll the interface, and say when to poll it next.
fn poll(stack: &mut TestStack, secs: i64) -> Instant {
    stack.inner.now = Instant::from_secs(secs);
    let mut clock = Clock::new(Instant::from_secs(secs));
    stack.ifaces.get_mut(0).slaac_poll(&mut stack.inner, &mut clock);
    clock.next()
}

fn cidrs(stack: &mut TestStack) -> Vec<IpCidr> {
    stack.iface(IFACE).ip_addrs().iter().map(|a| a.cidr).collect()
}

#[test]
fn three_solicitations_are_sent() {
    let (mut stack, tx) = test_stack();
    let dst = Ipv6Address::link_local_all_routers();
    let mut frame = build_ethernet_header(
        EthernetAddress(0x33, 0x33, 0, 0, 0, 2),
        HW,
        EthernetProtocol(0x86dd),
    );
    frame.extend_from_slice(&build_ipv6_header(link_local(), dst, IpProtocol(58), 255, 16));
    frame.extend_from_slice(&build_router_solicit(
        link_local(),
        dst,
        HardwareAddress::Ethernet(HW),
        false,
    ));
    assert_eq!(poll(&mut stack, 0), Instant::from_secs(4));
    assert_eq!(*tx.borrow(), vec![frame.clone()]);
    assert_eq!(poll(&mut stack, 3), Instant::from_secs(4));
    assert_eq!(tx.borrow().len(), 1);
    assert_eq!(poll(&mut stack, 4), Instant::from_secs(8));
    poll(&mut stack, 8);
    assert_eq!(*tx.borrow(), vec![frame.clone(), frame.clone(), frame]);
    for secs in 9..100 {
        poll(&mut stack, secs);
    }
    assert_eq!(tx.borrow().len(), 3);
    assert_eq!(poll(&mut stack, 100), Instant::max_value());
}

#[test]
fn solicitations_wait_for_the_link() {
    let (mut stack, tx) = test_stack();
    stack.ifaces.get_mut(0).last_link_state = LinkState::Down;
    assert_eq!(poll(&mut stack, 0), Instant::max_value());
    assert!(tx.borrow().is_empty());
    stack.ifaces.get_mut(0).last_link_state = LinkState::Up;
    poll(&mut stack, 1);
    assert_eq!(tx.borrow().len(), 1);
}

#[test]
fn solicitation_counts_without_a_buffer() {
    let (mut stack, tx) = test_stack();
    let mut held = Vec::new();
    while let Some(buf) = PacketBuf::try_new(&stack.inner.pool) {
        held.push(buf);
    }
    assert_eq!(poll(&mut stack, 0), Instant::from_secs(4));
    assert!(tx.borrow().is_empty());
    drop(held);
    poll(&mut stack, 4);
    assert_eq!(tx.borrow().len(), 1);
}

#[test]
fn advertisement_configures_the_iface() {
    let (mut stack, tx) = test_stack();
    poll(&mut stack, 0);
    receive(&mut stack, &advertisement(80, 1), 1);
    // The router's link-layer address is learned at once.
    assert!(matches!(
        stack.inner.work[..],
        [LinkWork::FillNeighbor {
            iface: IFACE,
            addr: IpAddress::Ipv6(_),
            hardware_addr: HardwareAddress::Ethernet(EthernetAddress(2, 0, 0, 0, 0, 9)),
        }]
    ));
    let generation = stack.iface(IFACE).config_generation();
    // The router is gone first, at 81 seconds.
    assert_eq!(poll(&mut stack, 1), Instant::from_secs(81));
    assert_eq!(stack.iface(IFACE).config_generation(), generation + 1);
    assert_eq!(cidrs(&mut stack).len(), 2);
    let addr = stack.iface(IFACE).ip_addrs()[1];
    assert_eq!(addr.cidr, formed(1));
    assert_eq!(addr.origin, AddrOrigin::Slaac);
    assert_eq!(addr.preferred_until, Some(Instant::from_secs(51)));
    {
        let iface = stack.iface(IFACE);
        let state = iface.slaac().unwrap();
        assert!(state.routers_seen);
        assert!(!state.managed);
        assert!(state.other_config);
    }
    let far = IpAddress::Ipv6(Ipv6Address::new(0x2001, 0xdb8, 9, 0, 0, 0, 0, 1));
    let route = stack.inner.routes.lookup(&far, IfaceBinding::Any, Instant::from_secs(2)).unwrap();
    assert_eq!(route.via_router, IpAddress::Ipv6(router()));
    assert_eq!(route.origin, RouteOrigin::Slaac);
    // An answered solicitation is the last.
    for secs in 2..80 {
        poll(&mut stack, secs);
    }
    assert_eq!(tx.borrow().len(), 1);
    assert_eq!(poll(&mut stack, 81), Instant::from_secs(101));
    assert!(stack
        .inner
        .routes
        .lookup(&far, IfaceBinding::Any, Instant::from_secs(81))
        .is_none());
    assert!(cidrs(&mut stack).contains(&formed(1)));
    assert_eq!(poll(&mut stack, 101), Instant::max_value());
    assert!(!cidrs(&mut stack).contains(&formed(1)));
}

#[test]
fn malformed_advertisement_teaches_nothing() {
    let (mut stack, _tx) = test_stack();
    let mut bytes = advertisement(80, 1);
    bytes.pop();
    receive(&mut stack, &bytes, 1);
    assert!(stack.inner.work.is_empty());
    assert!(!stack.iface(IFACE).slaac().unwrap().routers_seen);
    // Nor does a good one while autoconfiguration is off.
    stack.iface(IFACE).set_slaac(None);
    receive(&mut stack, &advertisement(80, 1), 1);
    assert!(stack.inner.work.is_empty());
    assert!(stack.iface(IFACE).slaac().is_none());
}

/// Only lifetimes that are taken over have to end in time.
#[test]
fn advertisement_at_the_end_of_time() {
    let (mut stack, _tx) = test_stack();
    let last = i64::MAX / 1_000_000;
    // One that carries only what ends in time is taken over.
    let secs = last - 100;
    receive(&mut stack, &advertisement(80, 1), secs);
    assert!(stack.iface(IFACE).slaac().unwrap().routers_seen);
    poll(&mut stack, secs);
    assert_eq!(cidrs(&mut stack)[1], formed(1));
    // While autoconfiguration is off, nothing is.
    stack.iface(IFACE).set_slaac(None);
    receive(&mut stack, &advertisement(80, 1), last);
    assert!(stack.iface(IFACE).slaac().is_none());
    assert_eq!(poll(&mut stack, last), Instant::max_value());
}

#[test]
fn reset_removes_what_was_learned() {
    let (mut stack, _tx) = test_stack();
    let manual = IpCidr::new(IpAddress::Ipv4(Ipv4Address::new(10, 0, 0, 1)), 24);
    stack.iface(IFACE).add_ip_addr(manual).unwrap();
    stack
        .inner
        .routes
        .add(Route {
            cidr: manual,
            via_router: IpAddress::Ipv4(Ipv4Address::new(10, 0, 0, 254)),
            iface: IFACE,
            origin: RouteOrigin::Manual,
            preferred_until: None,
            expires_at: None,
        })
        .unwrap();
    receive(&mut stack, &advertisement(80, 1), 1);
    poll(&mut stack, 1);
    assert_eq!(stack.inner.routes.list.len(), 2);
    stack.inner.work.clear();
    stack.iface(IFACE).set_slaac(None);
    let link_local = IpCidr::Ipv6(Ipv6Cidr::new(link_local(), 64));
    assert_eq!(cidrs(&mut stack), vec![link_local, manual]);
    assert_eq!(stack.inner.routes.list.len(), 1);
    assert!(matches!(stack.inner.work[..], [LinkWork::Purge { iface: IFACE }]));
}

#[test]
fn restart_solicits_again() {
    let (mut stack, tx) = test_stack();
    for secs in [0, 4, 8, 12] {
        poll(&mut stack, secs);
    }
    assert_eq!(tx.borrow().len(), 3);
    stack.iface(IFACE).restart_slaac();
    poll(&mut stack, 13);
    assert_eq!(tx.borrow().len(), 4);
}

#[test]
fn later_advertisement_renews_the_prefix() {
    let (mut stack, _tx) = test_stack();
    receive(&mut stack, &advertisement(0, 1), 1);
    poll(&mut stack, 1);
    receive(&mut stack, &advertisement(0, 1), 60);
    poll(&mut stack, 60);
    poll(&mut stack, 101);
    assert!(cidrs(&mut stack).contains(&formed(1)));
    assert_eq!(
        stack.iface(IFACE).ip_addrs()[1].preferred_until,
        Some(Instant::from_secs(110))
    );
}

/// An address that was formed under an earlier hardware address goes with its prefix too.
#[test]
fn address_of_an_earlier_hardware_address_expires() {
    let (mut stack, _tx) = test_stack();
    receive(&mut stack, &advertisement(0, 1), 1);
    poll(&mut stack, 1);
    assert!(cidrs(&mut stack).contains(&formed(1)));
    let new = HardwareAddress::Ethernet(EthernetAddress(2, 0, 0, 0, 0, 5));
    stack.iface(IFACE).set_hardware_addr(new);
    receive(&mut stack, &advertisement(0, 2), 50);
    poll(&mut stack, 50);
    // The prefix is still valid.
    assert!(cidrs(&mut stack).contains(&formed(1)));
    let second = IpCidr::Ipv6(Ipv6Cidr::new(
        Ipv6Address::new(0x2001, 0xdb8, 2, 0, 0, 0xff, 0xfe00, 5),
        64,
    ));
    poll(&mut stack, 101);
    assert!(!cidrs(&mut stack).contains(&formed(1)));
    assert!(cidrs(&mut stack).contains(&second));
    assert_eq!(cidrs(&mut stack).len(), 2);
}

#[test]
fn address_table_of_a_full_iface() {
    let (mut stack, _tx) = test_stack();
    for i in 1..IFACE_ADDR_COUNT as u8 {
        let cidr = IpCidr::new(IpAddress::Ipv4(Ipv4Address::new(10, 0, i, 1)), 24);
        stack.iface(IFACE).add_ip_addr(cidr).unwrap();
    }
    let before = cidrs(&mut stack);
    receive(&mut stack, &advertisement(0, 1), 1);
    poll(&mut stack, 1);
    assert_eq!(cidrs(&mut stack), before);
}

fn info(site: u8, valid: u64, preferred: u64) -> PrefixInformation {
    PrefixInformation {
        prefix_len: 64,
        flags: NdiscPrefixInfoFlags { bits: 0x40 },
        valid_lifetime: Duration::from_secs(valid),
        preferred_lifetime: Duration::from_secs(preferred),
        prefix: prefix(site),
    }
}

#[test]
fn unusable_prefixes_are_ignored() {
    let now = Instant::from_secs(1);
    let mut slaac = Slaac::new(SlaacConfig::default());
    // Preferred for longer than it is valid.
    let longer = info(1, 50, 51);
    // Not for autoconfiguration.
    let mut other = info(2, 100, 50);
    other.flags = NdiscPrefixInfoFlags { bits: 0x80 };
    let mut link_local = info(3, 100, 50);
    link_local.prefix = Ipv6Address::new(0xfe80, 0, 0, 0, 0, 0, 0, 0);
    assert!(!longer.is_valid_prefix_info());
    slaac.process_advertisement(
        &router(),
        NdiscRouterFlags::empty(),
        Duration::zero(),
        &[longer, other, link_local],
        now,
    );
    assert_eq!(slaac.prefix.len(), 0);
    assert_eq!(slaac.routes.len(), 0);
    assert_eq!(slaac.phase, Phase::Start);
}

#[test]
fn tables_of_learned_state_have_an_end() {
    let now = Instant::from_secs(1);
    let mut slaac = Slaac::new(SlaacConfig::default());
    for site in 0..8 {
        let from = Ipv6Address::new(0xfe80, 0, 0, 0, 0, 0, 0, site as u16 + 1);
        slaac.process_advertisement(
            &from,
            NdiscRouterFlags::empty(),
            Duration::from_secs(100),
            &[info(site, 100, 50)],
            now,
        );
    }
    assert_eq!(slaac.prefix.len(), SLAAC_PREFIX_COUNT);
    assert_eq!(slaac.routes.len(), SLAAC_ROUTER_COUNT);
    assert_eq!(slaac.prefix.get(0).0.address(), prefix(0));
}

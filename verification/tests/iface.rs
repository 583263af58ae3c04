//! Interfaces and their addresses.

use std::sync::atomic::{AtomicUsize, Ordering};
use std::sync::Arc;
use std::task::{Wake, Waker};
use xarxa::config::{IFACE_ADDR_COUNT, IFACE_COUNT};
use xarxa::driver::{
    CallLog, Capabilities, ChecksumCapabilities, Driver, LinkState, PacketBuf, TxTimestamp,
};
use xarxa::iface::{AddrOrigin, IfaceAddr, IfaceBinding, IfaceHandle, Medium};
use xarxa::stack::{AddIfaceError, LinkWork, Stack};
use xarxa::storage::Full;
use xarxa::time::Instant;
use xarxa::wire::{
    EthernetAddress, HardwareAddress, Ieee802154Address, IpAddress, IpCidr, Ipv4Address,
    Ipv6Address, Ipv6Cidr,
};

struct Device {
    medium: xarxa::driver::Medium,
    hardware_addr: HardwareAddress,
    mtu: usize,
    link: LinkState,
    timestamps: Vec<TxTimestamp>,
}

impl Driver for Device {
    fn capabilities(&self) -> Capabilities {
        Capabilities {
            medium: self.medium,
            max_transmission_unit: self.mtu,
            lowpan_ip_mtu: 1280,
            checksum: ChecksumCapabilities::none(),
        }
    }

    fn hardware_address(&self) -> HardwareAddress {
        self.hardware_addr
    }

    fn link_state(&mut self, _log: &mut CallLog) -> LinkState {
        self.link
    }

    fn can_transmit(&mut self, _log: &mut CallLog) -> bool {
        true
    }

    fn transmit(&mut self, _packet: PacketBuf, _log: &mut CallLog) {}

    fn poll_tx_timestamp(&mut self, _log: &mut CallLog) -> Option<TxTimestamp> {
        self.timestamps.pop()
    }
}

const HW: HardwareAddress = HardwareAddress::Ethernet(EthernetAddress(2, 0, 0, 0, 0, 1));

fn ethernet() -> Device {
    Device {
        medium: xarxa::driver::Medium::Ethernet,
        hardware_addr: HW,
        mtu: 1514,
        link: LinkState::Up,
        timestamps: Vec::new(),
    }
}

fn ip_only(mtu: usize) -> Device {
    Device {
        medium: xarxa::driver::Medium::Ip,
        hardware_addr: HardwareAddress::Ip,
        mtu,
        link: LinkState::Up,
        timestamps: Vec::new(),
    }
}

fn v4(a: u8, b: u8, c: u8, d: u8) -> IpAddress {
    IpAddress::Ipv4(Ipv4Address::new(a, b, c, d))
}

fn link_local() -> Ipv6Address {
    Ipv6Address::new(0xfe80, 0, 0, 0, 0, 0xff, 0xfe00, 1)
}

/// A waker that counts how often it was woken.
struct Count(AtomicUsize);

impl Wake for Count {
    fn wake(self: Arc<Self>) {
        self.0.fetch_add(1, Ordering::SeqCst);
    }
}

#[test]
fn added_iface_has_its_link_local_address() {
    let mut stack = Stack::new();
    let handle = stack.add_iface(ethernet()).unwrap();
    assert_eq!(handle, IfaceHandle { index: 0 });
    let iface = stack.iface(handle);
    assert_eq!(iface.hardware_addr(), HW);
    assert_eq!(
        iface.ip_addrs(),
        &[link_local_addr()][..]
    );
    // Locally administered bit flipped, ff:fe in the middle.
    assert!(iface.has_ip_addr(IpAddress::Ipv6(link_local())));
    assert_eq!(iface.config_generation(), 0);

    let handle = stack.add_iface(ip_only(1500)).unwrap();
    assert_eq!(handle, IfaceHandle { index: 1 });
    assert!(stack.iface(handle).ip_addrs().is_empty());
}

fn link_local_addr() -> IfaceAddr {
    let addr = xarxa::iface::link_local_addr(HW).unwrap();
    assert_eq!(addr.cidr, IpCidr::Ipv6(Ipv6Cidr::new(link_local(), 64)));
    assert_eq!(addr.origin, AddrOrigin::LinkLocal);
    assert_eq!(addr.preferred_until, None);
    addr
}

#[test]
fn link_local_address_of_802154() {
    let addr = HardwareAddress::Ieee802154(Ieee802154Address::Extended(0x0011_2233_4455_6677));
    assert_eq!(
        xarxa::iface::link_local_addr(addr).unwrap().cidr,
        IpCidr::Ipv6(Ipv6Cidr::new(
            Ipv6Address::new(0xfe80, 0, 0, 0, 0x0211, 0x2233, 0x4455, 0x6677),
            64
        ))
    );
    let short = HardwareAddress::Ieee802154(Ieee802154Address::Short(1));
    assert!(xarxa::iface::link_local_addr(short).is_none());
    assert!(xarxa::iface::link_local_addr(HardwareAddress::Ip).is_none());
}

#[test]
fn iface_that_does_not_fit_together_is_refused() {
    let mut stack = Stack::new();
    let mut wrong = ethernet();
    wrong.hardware_addr = HardwareAddress::Ip;
    assert_eq!(stack.add_iface(wrong), Err(AddIfaceError::InvalidHardwareAddr));
    let mut short = ethernet();
    short.mtu = 13;
    assert_eq!(stack.add_iface(short), Err(AddIfaceError::InvalidMtu));
    for index in 0..IFACE_COUNT {
        assert_eq!(stack.add_iface(ethernet()), Ok(IfaceHandle { index }));
    }
    assert_eq!(stack.add_iface(ethernet()), Err(AddIfaceError::Full));
}

#[test]
fn ifaces_are_gone_through_in_order() {
    let mut stack = Stack::new();
    let a = stack.add_iface(ethernet()).unwrap();
    let b = stack.add_iface(ip_only(900)).unwrap();
    let mut iter = stack.ifaces();
    let mut seen = Vec::new();
    while let Some((handle, iface)) = iter.next() {
        seen.push((handle, iface.ip_mtu()));
    }
    assert_eq!(seen, vec![(a, 1500), (b, 900)]);
    assert!(iter.next().is_none());
}

#[test]
fn mtu_is_what_the_device_and_a_buffer_take() {
    let mut stack = Stack::new();
    let mut jumbo = ethernet();
    jumbo.mtu = 9000;
    let mut small = ethernet();
    small.mtu = 600;
    let jumbo = stack.add_iface(jumbo).unwrap();
    let small = stack.add_iface(small).unwrap();
    let lowpan = stack
        .add_iface(Device {
            medium: xarxa::driver::Medium::Ieee802154,
            hardware_addr: HardwareAddress::Ieee802154(Ieee802154Address::Extended(7)),
            mtu: 125,
            link: LinkState::Down,
            timestamps: Vec::new(),
        })
        .unwrap();
    assert_eq!(stack.iface(jumbo).ip_mtu(), 1500);
    assert_eq!(stack.iface(small).ip_mtu(), 586);
    assert_eq!(stack.iface(lowpan).ip_mtu(), 1280);
    assert_eq!(stack.iface(small).capabilities().max_transmission_unit, 600);
}

#[test]
fn addresses_are_added_changed_and_removed() {
    let mut stack = Stack::new();
    let handle = stack.add_iface(ethernet()).unwrap();
    let mut iface = stack.iface(handle);
    assert_eq!(iface.add_ip_addr(IpCidr::new(v4(10, 0, 0, 1), 24)), Ok(None));
    assert_eq!(iface.config_generation(), 1);
    // The same again changes nothing.
    assert_eq!(
        iface.add_ip_addr(IpCidr::new(v4(10, 0, 0, 1), 24)),
        Ok(Some(IpCidr::new(v4(10, 0, 0, 1), 24)))
    );
    assert_eq!(iface.config_generation(), 1);
    assert!(iface.inner.work.is_empty());
    // Another prefix replaces the old one, and the link is forgotten.
    assert_eq!(
        iface.add_ip_addr(IpCidr::new(v4(10, 0, 0, 1), 8)),
        Ok(Some(IpCidr::new(v4(10, 0, 0, 1), 24)))
    );
    assert_eq!(iface.config_generation(), 2);
    assert!(matches!(
        iface.inner.work[..],
        [LinkWork::Purge { iface: IfaceHandle { index: 0 } }]
    ));
    assert!(iface.has_ip_addr(v4(10, 0, 0, 1)));
    assert!(!iface.has_ip_addr(v4(10, 0, 0, 2)));
    assert_eq!(iface.remove_ip_addr(v4(10, 0, 0, 2)), None);
    assert_eq!(
        iface.remove_ip_addr(v4(10, 0, 0, 1)),
        Some(IpCidr::new(v4(10, 0, 0, 1), 8))
    );
    assert_eq!(iface.config_generation(), 3);
    assert!(!iface.has_ip_addr(v4(10, 0, 0, 1)));
}

#[test]
fn address_table_has_an_end() {
    let mut stack = Stack::new();
    let handle = stack.add_iface(ethernet()).unwrap();
    let mut iface = stack.iface(handle);
    // One place is taken by the link-local address.
    for i in 1..IFACE_ADDR_COUNT as u8 {
        assert_eq!(iface.add_ip_addr(IpCidr::new(v4(10, 0, i, 1), 24)), Ok(None));
    }
    assert_eq!(iface.add_ip_addr(IpCidr::new(v4(10, 1, 0, 1), 24)), Err(Full));
    let many: Vec<IpCidr> =
        (0..IFACE_ADDR_COUNT as u8).map(|i| IpCidr::new(v4(10, 2, i, 1), 24)).collect();
    // The link-local address does not fit beside these.
    assert_eq!(iface.set_ip_addrs(&many), Err(Full));
    assert!(iface.has_ip_addr(v4(10, 0, 1, 1)));
    assert_eq!(iface.set_ip_addrs(&many[1..]), Ok(()));
    assert!(!iface.has_ip_addr(v4(10, 0, 1, 1)));
    assert_eq!(iface.ip_addrs().len(), IFACE_ADDR_COUNT);
    assert_eq!(iface.ip_addrs()[IFACE_ADDR_COUNT - 1], link_local_addr());
}

#[test]
fn replacing_addresses_keeps_the_link_local_one() {
    let mut stack = Stack::new();
    let handle = stack.add_iface(ethernet()).unwrap();
    let mut iface = stack.iface(handle);
    let new = [
        IpCidr::new(v4(10, 0, 0, 1), 24),
        IpCidr::new(v4(10, 0, 1, 1), 24),
        IpCidr::new(v4(10, 0, 0, 1), 16),
    ];
    iface.set_ip_addrs(&new).unwrap();
    // As if they had been added one after the other.
    let cidrs: Vec<IpCidr> = iface.ip_addrs().iter().map(|a| a.cidr).collect();
    assert_eq!(cidrs, vec![new[2], new[1], link_local_addr().cidr]);
    assert_eq!(iface.config_generation(), 1);
    iface.set_ip_addrs(&new).unwrap();
    assert_eq!(iface.config_generation(), 1);
}

#[test]
fn link_local_address_follows_the_hardware_address() {
    let mut stack = Stack::new();
    let handle = stack.add_iface(ethernet()).unwrap();
    let mut iface = stack.iface(handle);
    iface.add_ip_addr(IpCidr::new(v4(10, 0, 0, 1), 24)).unwrap();
    let new = HardwareAddress::Ethernet(EthernetAddress(0xaa, 0xbb, 0xcc, 0xdd, 0xee, 0xff));
    iface.set_hardware_addr(new);
    assert_eq!(iface.hardware_addr(), new);
    let cidrs: Vec<IpCidr> = iface.ip_addrs().iter().map(|a| a.cidr).collect();
    let followed = Ipv6Address::new(0xfe80, 0, 0, 0, 0xa8bb, 0xccff, 0xfedd, 0xeeff);
    assert_eq!(
        cidrs,
        vec![
            IpCidr::new(v4(10, 0, 0, 1), 24),
            IpCidr::Ipv6(Ipv6Cidr::new(followed, 64))
        ]
    );
    assert_eq!(iface.config_generation(), 2);
}

/// The old link-local address makes room for the new one.
#[test]
fn full_table_has_room_for_the_next_link_local_address() {
    let mut stack = Stack::new();
    let handle = stack.add_iface(ethernet()).unwrap();
    let mut iface = stack.iface(handle);
    for i in 1..IFACE_ADDR_COUNT as u8 {
        iface.add_ip_addr(IpCidr::new(v4(10, 0, i, 1), 24)).unwrap();
    }
    iface.set_hardware_addr(HardwareAddress::Ethernet(EthernetAddress(2, 0, 0, 0, 0, 2)));
    assert_eq!(iface.ip_addrs().len(), IFACE_ADDR_COUNT);
    let followed = Ipv6Address::new(0xfe80, 0, 0, 0, 0, 0xff, 0xfe00, 2);
    assert!(iface.has_ip_addr(IpAddress::Ipv6(followed)));
    assert!(!iface.has_ip_addr(IpAddress::Ipv6(link_local())));
}

#[test]
fn waiting_task_is_woken_once_by_a_change() {
    let count = Arc::new(Count(AtomicUsize::new(0)));
    let waker = Waker::from(count.clone());
    let mut stack = Stack::new();
    let handle = stack.add_iface(ethernet()).unwrap();
    let mut iface = stack.iface(handle);
    iface.register_waker(&waker);
    assert_eq!(count.0.load(Ordering::SeqCst), 0);
    iface.add_ip_addr(IpCidr::new(v4(10, 0, 0, 1), 24)).unwrap();
    assert_eq!(count.0.load(Ordering::SeqCst), 1);
    iface.add_ip_addr(IpCidr::new(v4(10, 0, 0, 2), 24)).unwrap();
    assert_eq!(count.0.load(Ordering::SeqCst), 1);
}

#[test]
fn driver_is_reached_through_the_iface() {
    let mut stack = Stack::new();
    let mut device = ethernet();
    device.timestamps.push(TxTimestamp { id: 9, timestamp: Instant::from_secs(3) });
    let handle = stack.add_iface(device).unwrap();
    let mut iface = stack.iface(handle);
    assert_eq!(iface.link_state(), LinkState::Up);
    iface.driver_mut().link = LinkState::Down;
    assert_eq!(iface.link_state(), LinkState::Down);
    assert_eq!(
        iface.poll_tx_timestamp(),
        Some(TxTimestamp { id: 9, timestamp: Instant::from_secs(3) })
    );
    assert_eq!(iface.poll_tx_timestamp(), None);
}

#[test]
fn media_convert_both_ways() {
    for medium in [Medium::Ethernet, Medium::Ip, Medium::Ieee802154] {
        assert_eq!(Medium::from_driver(medium.into()), Some(medium));
    }
}

#[test]
fn binding_admits_its_iface() {
    let a = IfaceHandle { index: 1 };
    let b = IfaceHandle { index: 2 };
    assert!(IfaceBinding::from_iface(None).matches(a));
    assert_eq!(IfaceBinding::from_iface(None).match_score(a), Some(0));
    assert!(IfaceBinding::from_iface(Some(a)).matches(a));
    assert!(!IfaceBinding::from_iface(Some(a)).matches(b));
    assert_eq!(IfaceBinding::from_iface(Some(a)).match_score(a), Some(4));
    assert_eq!(IfaceBinding::from_iface(Some(a)).match_score(b), None);
    assert_eq!(IfaceBinding::from_iface(Some(a)).iface(), Some(a));
}

fn ip6(addr: Ipv6Address, prefix_len: u8) -> IpCidr {
    IpCidr::Ipv6(Ipv6Cidr::new(addr, prefix_len))
}

#[test]
fn ipv4_source_is_of_the_same_subnet() {
    let mut stack = Stack::new();
    let handle = stack.add_iface(ethernet()).unwrap();
    let near = Ipv4Address::new(192, 168, 1, 9);
    let far = Ipv4Address::new(8, 8, 8, 8);
    {
        let iface = stack.ifaces.get(handle.index);
        assert_eq!(iface.get_source_address_ipv4(&near), None);
        assert_eq!(iface.ipv4_addr(), None);
    }
    stack
        .iface(handle)
        .set_ip_addrs(&[IpCidr::new(v4(10, 0, 0, 1), 8), IpCidr::new(v4(192, 168, 1, 1), 24)])
        .unwrap();
    let iface = stack.ifaces.get(handle.index);
    assert_eq!(
        iface.get_source_address_ipv4(&near),
        Some(Ipv4Address::new(192, 168, 1, 1))
    );
    assert_eq!(iface.get_source_address_ipv4(&far), Some(Ipv4Address::new(10, 0, 0, 1)));
    assert_eq!(
        iface.get_source_address(&IpAddress::Ipv4(near), Instant::zero()),
        Some(v4(192, 168, 1, 1))
    );
    assert!(iface.in_same_network(&IpAddress::Ipv4(near)));
    assert!(!iface.in_same_network(&IpAddress::Ipv4(far)));
    assert!(iface.is_broadcast_v4(Ipv4Address::new(192, 168, 1, 255)));
    assert!(iface.is_broadcast_v4(Ipv4Address::new(10, 255, 255, 255)));
    assert!(iface.is_broadcast(&v4(255, 255, 255, 255)));
    assert!(!iface.is_broadcast_v4(Ipv4Address::new(192, 168, 1, 254)));
    assert!(iface.is_unicast_v4(Ipv4Address::new(192, 168, 1, 254)));
    assert!(!iface.is_unicast_v4(Ipv4Address::new(192, 168, 1, 255)));
    assert_eq!(iface.cidrs().len(), 3);
}

#[test]
fn ipv6_source_is_chosen_by_rule() {
    let mut stack = Stack::new();
    let handle = stack.add_iface(ethernet()).unwrap();
    let now = Instant::from_secs(10);
    let global = Ipv6Address::new(0x2001, 0xdb8, 1, 0, 0, 0, 0, 1);
    let other = Ipv6Address::new(0x2001, 0xdb8, 2, 0, 0, 0, 0, 1);
    let unique = Ipv6Address::new(0xfdaa, 0, 0, 0, 0, 0, 0, 1);
    stack
        .iface(handle)
        .set_ip_addrs(&[ip6(unique, 64), ip6(global, 64), ip6(other, 64)])
        .unwrap();
    let iface = stack.ifaces.get_mut(handle.index);
    // The destination itself.
    assert_eq!(iface.get_source_address_ipv6(&other, now), other);
    // A link-local destination is reached from the link-local address.
    let router = Ipv6Address::new(0xfe80, 0, 0, 0, 0, 0, 0, 0x99);
    assert_eq!(iface.get_source_address_ipv6(&router, now), link_local());
    // The longest matching prefix.
    let near_other = Ipv6Address::new(0x2001, 0xdb8, 2, 0, 0, 0, 0, 0x77);
    assert_eq!(iface.get_source_address_ipv6(&near_other, now), other);
    // But not from a deprecated address.
    let mut addrs = xarxa::storage::BoundedVec::new();
    for addr in iface.ip_addrs.as_slice() {
        let mut addr = *addr;
        if addr.cidr == ip6(other, 64) {
            addr.preferred_until = Some(now);
        }
        addrs.push(addr).unwrap();
    }
    iface.ip_addrs = addrs;
    assert_eq!(iface.get_source_address_ipv6(&near_other, now), global);
    assert_eq!(
        iface.get_source_address_ipv6(&near_other, Instant::from_secs(9)),
        other
    );
    assert_eq!(
        iface.get_source_address_ipv6(&Ipv6Address::localhost(), now),
        Ipv6Address::localhost()
    );
    assert_eq!(iface.link_local_ipv6_address(), Some(link_local()));
}

#[test]
fn iface_listens_to_its_groups() {
    let mut stack = Stack::new();
    let handle = stack.add_iface(ethernet()).unwrap();
    let iface = stack.ifaces.get(handle.index);
    let solicited = Ipv6Address::new(0xff02, 0, 0, 0, 0, 1, 0xff00, 1);
    assert!(iface.has_solicited_node(solicited));
    assert!(!iface.has_solicited_node(Ipv6Address::new(0xff02, 0, 0, 0, 0, 1, 0xff00, 2)));
    assert!(!iface.has_solicited_node(Ipv6Address::new(0xff02, 0, 0, 0, 0, 0, 0, 1)));
    assert!(iface.has_multicast_group(IpAddress::Ipv6(solicited)));
    assert!(iface.has_multicast_group(IpAddress::Ipv6(Ipv6Address::link_local_all_nodes())));
    assert!(iface.has_multicast_group(v4(224, 0, 0, 1)));
    assert!(!iface.has_multicast_group(v4(224, 0, 0, 2)));
}

#[test]
fn preferred_addresses_become_deprecated() {
    let mut addr = IfaceAddr::manual(IpCidr::new(v4(10, 0, 0, 1), 24));
    assert!(addr.is_preferred(Instant::max_value()));
    addr.preferred_until = Some(Instant::from_secs(5));
    assert!(addr.is_preferred(Instant::from_secs(4)));
    assert!(!addr.is_preferred(Instant::from_secs(5)));
}

#[test]
fn kinds_of_iface_address() {
    let mut stack = Stack::new();
    let eth = stack.add_iface(ethernet()).unwrap();
    let ip = stack.add_iface(ip_only(1500)).unwrap();
    assert!(stack.ifaces.get(eth.index).has_link_layer());
    assert!(!stack.ifaces.get(ip.index).has_link_layer());
    assert_eq!(
        stack.ifaces.get(eth.index).ethernet_addr(),
        EthernetAddress(2, 0, 0, 0, 0, 1)
    );
}

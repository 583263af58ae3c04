//! Raw sockets.

use std::cell::RefCell;
use std::rc::Rc;
use xarxa::config::PACKET_BUF_SIZE;
use xarxa::driver::{
    CallLog, Capabilities, ChecksumCapabilities, Driver, LinkState, PacketBuf, PacketMeta, PacketPool,
    TxTimestamp,
};
use xarxa::iface::{IfaceHandle, Medium};
use xarxa::raw::{BindError, RawMode, RecvError, SendError};
use xarxa::stack::Stack;
use xarxa::wire::checksum::{checksum_of, sum_words};
use xarxa::wire::ethernet::{ETHERTYPE_ARP, ETHERTYPE_IPV4};
use xarxa::wire::ip::{
    IP_PROTOCOL_ICMP, IP_PROTOCOL_ICMPV6, IP_PROTOCOL_TCP, IP_PROTOCOL_UDP,
};
use xarxa::wire::{
    EthernetAddress, EthernetProtocol, HardwareAddress, IpAddress, IpCidr, IpProtocol, IpVersion,
    Ipv4Address, Ipv6Address, ETHERNET_HEADER_LEN, IPV4_HEADER_LEN, IPV6_HEADER_LEN,
    LINK_HEADER_LEN,
};

type Sent = Rc<RefCell<Vec<Vec<u8>>>>;

/// A device that records what it is given.
struct TestDevice {
    hardware_addr: HardwareAddress,
    tx: Sent,
    tx_meta: Rc<RefCell<Vec<PacketMeta>>>,
    room: Rc<RefCell<bool>>,
}

impl TestDevice {
    fn new(medium: Medium) -> TestDevice {
        TestDevice {
            hardware_addr: match medium {
                Medium::Ethernet => {
                    HardwareAddress::Ethernet(EthernetAddress(0x02, 0, 0, 0, 0, 0x01))
                }
                _ => HardwareAddress::Ip,
            },
            tx: Rc::new(RefCell::new(Vec::new())),
            tx_meta: Rc::new(RefCell::new(Vec::new())),
            room: Rc::new(RefCell::new(true)),
        }
    }
}

impl Driver for TestDevice {
    fn capabilities(&self) -> Capabilities {
        Capabilities {
            medium: self.hardware_addr.medium().into(),
            max_transmission_unit: 1514,
            lowpan_ip_mtu: 0,
            checksum: ChecksumCapabilities::none(),
        }
    }

    fn hardware_address(&self) -> HardwareAddress {
        self.hardware_addr
    }

    fn link_state(&mut self, _log: &mut CallLog) -> LinkState {
        LinkState::Up
    }

    fn can_transmit(&mut self, _log: &mut CallLog) -> bool {
        *self.room.borrow()
    }

    fn transmit(&mut self, packet: PacketBuf, _log: &mut CallLog) {
        self.tx.borrow_mut().push(packet.as_slice().to_vec());
        self.tx_meta.borrow_mut().push(packet.meta());
    }

    fn poll_tx_timestamp(&mut self, _log: &mut CallLog) -> Option<TxTimestamp> {
        None
    }
}

type TestStack = Stack<TestDevice>;

fn add_test_iface(
    stack: &mut TestStack,
    medium: Medium,
    ip_addrs: Vec<IpCidr>,
) -> (IfaceHandle, Sent) {
    let driver = TestDevice::new(medium);
    let tx = driver.tx.clone();
    let handle = stack.add_iface(driver).unwrap();
    stack.iface(handle).set_ip_addrs(&ip_addrs).unwrap();
    (handle, tx)
}

const IP_PROTO: IpProtocol = IpProtocol(63);
const ICMP: IpProtocol = IpProtocol(IP_PROTOCOL_ICMP);
const ICMPV6: IpProtocol = IpProtocol(IP_PROTOCOL_ICMPV6);
const TCP: IpProtocol = IpProtocol(IP_PROTOCOL_TCP);
const UDP: IpProtocol = IpProtocol(IP_PROTOCOL_UDP);
const ARP: EthernetProtocol = EthernetProtocol(ETHERTYPE_ARP);
const ETHERTYPE_CUSTOM: EthernetProtocol = EthernetProtocol(0x88b5);

/// A whole IPv4 packet with an arbitrary protocol. The header checksum is left
/// zero, so tests double as proof that nothing rewrites the header.
fn ipv4_packet(protocol: IpProtocol, payload: &[u8]) -> Vec<u8> {
    let mut bytes = vec![0; IPV4_HEADER_LEN + payload.len()];
    bytes[0] = 0x45;
    let total = (IPV4_HEADER_LEN + payload.len()) as u16;
    bytes[2..4].copy_from_slice(&total.to_be_bytes());
    bytes[8] = 64;
    bytes[9] = protocol.0;
    bytes[12..16].copy_from_slice(&[192, 168, 69, 1]);
    bytes[16..20].copy_from_slice(&[192, 168, 69, 2]);
    bytes[IPV4_HEADER_LEN..].copy_from_slice(payload);
    bytes
}

fn ipv6_packet(protocol: IpProtocol, payload: &[u8]) -> Vec<u8> {
    let mut bytes = vec![0; IPV6_HEADER_LEN + payload.len()];
    bytes[0] = 0x60;
    bytes[4..6].copy_from_slice(&(payload.len() as u16).to_be_bytes());
    bytes[6] = protocol.0;
    bytes[7] = 64;
    let src = Ipv6Address::new(0xfdaa, 0, 0, 0, 0, 0, 0, 1);
    let dst = Ipv6Address::new(0xfdaa, 0, 0, 0, 0, 0, 0, 2);
    bytes[8..24].copy_from_slice(&src.bits.to_be_bytes());
    bytes[24..40].copy_from_slice(&dst.bits.to_be_bytes());
    bytes[IPV6_HEADER_LEN..].copy_from_slice(payload);
    bytes
}

fn eth_frame(ethertype: EthernetProtocol, payload: &[u8]) -> Vec<u8> {
    let mut bytes = vec![0x02, 0, 0, 0, 0, 0x01, 0x02, 0, 0, 0, 0, 0x02];
    bytes.extend_from_slice(&ethertype.0.to_be_bytes());
    assert_eq!(bytes.len(), ETHERNET_HEADER_LEN);
    bytes.extend_from_slice(payload);
    bytes
}

fn buf_from(pool: &PacketPool, bytes: &[u8]) -> PacketBuf {
    let mut buf = PacketBuf::try_new(pool).unwrap();
    buf.set_len(bytes.len());
    buf.as_mut_slice().copy_from_slice(bytes);
    buf
}

fn local_v4() -> IpCidr {
    IpCidr::new(IpAddress::Ipv4(Ipv4Address::new(192, 168, 69, 1)), 24)
}

fn local_v6() -> IpCidr {
    IpCidr::new(IpAddress::Ipv6(Ipv6Address::new(0xfdaa, 0, 0, 0, 0, 0, 0, 1)), 64)
}

fn with_id(id: u32) -> PacketMeta {
    let mut meta = PacketMeta::default();
    meta.id = id;
    meta
}

#[test]
fn test_bind_ip() {
    let mut stack = TestStack::new();
    let handle = stack.add_raw_socket().unwrap();
    let mut socket = stack.raw_socket(handle);
    assert!(!socket.is_open());
    assert_eq!(socket.mode(), None);

    let mode = RawMode::Ip {
        version: Some(IpVersion::V4),
        protocol: Some(ICMP),
    };
    assert_eq!(socket.bind(mode), Ok(()));
    assert!(socket.is_open());
    assert_eq!(socket.mode(), Some(mode));
    assert_eq!(
        socket.bind(RawMode::Ip {
            version: None,
            protocol: None
        }),
        Err(BindError::InvalidState)
    );

    socket.close();
    assert!(!socket.is_open());
    assert_eq!(
        socket.bind(RawMode::Ip {
            version: None,
            protocol: None
        }),
        Ok(())
    );
}

#[test]
fn test_bind_ethernet() {
    // An unbound Ethernet-mode bind is fine: the socket covers every
    // Ethernet interface.
    let mut stack = TestStack::new();
    let handle = stack.add_raw_socket().unwrap();
    let mut socket = stack.raw_socket(handle);
    assert_eq!(
        socket.bind(RawMode::Ethernet {
            ethertype: Some(ETHERTYPE_CUSTOM)
        }),
        Ok(())
    );
    assert!(socket.is_open());
}

#[test]
fn test_bind_to_iface_ethernet() {
    let mut stack = TestStack::new();
    let (eth_iface, _) = add_test_iface(&mut stack, Medium::Ethernet, vec![]);
    let (ip_iface, _) = add_test_iface(&mut stack, Medium::Ip, vec![]);

    let handle = stack.add_raw_socket().unwrap();
    let mut socket = stack.raw_socket(handle);

    // An Ethernet-mode socket may only be bound to an Ethernet-medium
    // interface.
    socket.bind_to_iface(Some(ip_iface)).unwrap();
    assert_eq!(
        socket.bind(RawMode::Ethernet { ethertype: None }),
        Err(BindError::InvalidMedium)
    );
    assert!(!socket.is_open());

    socket.bind_to_iface(Some(eth_iface)).unwrap();
    assert_eq!(socket.bound_iface(), Some(eth_iface));
    assert_eq!(
        socket.bind(RawMode::Ethernet {
            ethertype: Some(ETHERTYPE_CUSTOM)
        }),
        Ok(())
    );
    assert!(socket.is_open());

    // The binding cannot change while the socket is bound, and is kept
    // across close.
    assert_eq!(socket.bind_to_iface(None), Err(BindError::InvalidState));
    socket.close();
    assert_eq!(socket.bound_iface(), Some(eth_iface));
}

#[test]
fn test_recv() {
    let mut stack = TestStack::new();
    let handle = stack.add_raw_socket().unwrap();
    let mut socket = stack.raw_socket(handle);

    // Not bound yet.
    assert_eq!(socket.recv().err(), Some(RecvError::InvalidState));
    assert_eq!(socket.peek().err(), Some(RecvError::InvalidState));

    socket
        .bind(RawMode::Ip {
            version: None,
            protocol: None,
        })
        .unwrap();

    assert!(!socket.can_recv());
    assert_eq!(socket.recv().err(), Some(RecvError::Exhausted));
    assert_eq!(socket.peek().err(), Some(RecvError::Exhausted));

    let packet = ipv4_packet(IP_PROTO, b"abcdef");
    socket.state.rx_enqueue(buf_from(&socket.tx.inner.pool, &packet));
    assert!(socket.can_recv());

    // The whole packet, header included, byte for byte.
    assert_eq!(socket.peek().unwrap(), &packet[..]);
    assert_eq!(socket.recv().unwrap().as_slice(), &packet[..]);
    assert!(!socket.can_recv());
}

#[test]
fn test_peek_and_recv_slice() {
    let mut stack = TestStack::new();
    let handle = stack.add_raw_socket().unwrap();
    let mut socket = stack.raw_socket(handle);
    socket
        .bind(RawMode::Ip {
            version: None,
            protocol: None,
        })
        .unwrap();

    let packet = ipv4_packet(IP_PROTO, b"abcdef");
    socket.state.rx_enqueue(buf_from(&socket.tx.inner.pool, &packet));

    let mut slice = [0; 64];
    // Peeking does not dequeue.
    assert_eq!(socket.peek_slice(&mut slice).unwrap(), packet.len());
    assert_eq!(&slice[..packet.len()], &packet[..]);

    let len = socket.recv_slice(&mut slice).unwrap();
    assert_eq!(&slice[..len], &packet[..]);
    assert_eq!(socket.recv_slice(&mut slice).err(), Some(RecvError::Exhausted));
}

#[test]
fn test_recv_slice_truncated() {
    let mut stack = TestStack::new();
    let handle = stack.add_raw_socket().unwrap();
    let mut socket = stack.raw_socket(handle);
    socket
        .bind(RawMode::Ip {
            version: None,
            protocol: None,
        })
        .unwrap();
    socket.state.rx_enqueue(buf_from(&socket.tx.inner.pool, &ipv4_packet(IP_PROTO, b"abcdef")));

    let mut slice = [0; 4];
    // peek_slice keeps the packet...
    assert_eq!(socket.peek_slice(&mut slice).err(), Some(RecvError::Truncated));
    assert!(socket.can_recv());
    // ...recv_slice drops it.
    assert_eq!(socket.recv_slice(&mut slice).err(), Some(RecvError::Truncated));
    assert!(!socket.can_recv());
}

#[test]
fn test_demux_ip() {
    let mut stack = TestStack::new();
    let h_icmp = stack.add_raw_socket().unwrap();
    let h_any = stack.add_raw_socket().unwrap();
    stack
        .raw_socket(h_icmp)
        .bind(RawMode::Ip {
            version: Some(IpVersion::V4),
            protocol: Some(ICMP),
        })
        .unwrap();
    stack
        .raw_socket(h_any)
        .bind(RawMode::Ip {
            version: None,
            protocol: None,
        })
        .unwrap();

    // Not a stack protocol: the first matching socket takes the buffer.
    let packet = ipv4_packet(IP_PROTO, b"abcd");
    let res = stack.process_raw_ip(IfaceHandle::new(0), IpVersion::V4, IP_PROTO, false, buf_from(&stack.inner.pool, &packet));
    assert!(res.is_none());
    assert!(!stack.raw_socket(h_icmp).can_recv());
    assert_eq!(stack.raw_socket(h_any).recv().unwrap().as_slice(), &packet[..]);

    // A stack-handled protocol: the matching socket gets a copy, the packet
    // is handed back for further processing.
    let packet = ipv4_packet(ICMP, b"ping");
    let res = stack.process_raw_ip(
        IfaceHandle::new(0),
        IpVersion::V4,
        ICMP,
        true,
        buf_from(&stack.inner.pool, &packet),
    );
    let (res_buf, handled) = res.unwrap();
    assert_eq!(res_buf.as_slice(), &packet[..]);
    assert!(handled);
    assert_eq!(stack.raw_socket(h_icmp).recv().unwrap().as_slice(), &packet[..]);
    assert!(!stack.raw_socket(h_any).can_recv());

    // Version filter: an IPv6 packet skips the IPv4-bound socket.
    let packet = ipv6_packet(ICMP, b"six");
    let res = stack.process_raw_ip(
        IfaceHandle::new(0),
        IpVersion::V6,
        ICMP,
        false,
        buf_from(&stack.inner.pool, &packet),
    );
    assert!(res.is_none());
    assert!(!stack.raw_socket(h_icmp).can_recv());
    assert_eq!(stack.raw_socket(h_any).recv().unwrap().as_slice(), &packet[..]);

    // No socket matches: the buffer is handed back.
    stack.raw_socket(h_any).close();
    let packet = ipv4_packet(IP_PROTO, b"nobody");
    let res = stack.process_raw_ip(IfaceHandle::new(0), IpVersion::V4, IP_PROTO, false, buf_from(&stack.inner.pool, &packet));
    let (res_buf, handled) = res.unwrap();
    assert_eq!(res_buf.as_slice(), &packet[..]);
    assert!(!handled);
}

/// Packet metadata reaches a raw socket on the zero-copy ingress path *and* on
/// the copy the socket gets when the stack also wants the packet, and rides back
/// out to the device on send.
#[test]
fn test_packet_meta() {
    let driver = TestDevice::new(Medium::Ethernet);
    let sent = driver.tx_meta.clone();
    let mut stack = TestStack::new();
    let iface = stack.add_iface(driver).unwrap();

    let handle = stack.add_raw_socket().unwrap();
    stack
        .raw_socket(handle)
        .bind(RawMode::Ethernet { ethertype: None })
        .unwrap();

    // Zero-copy ingress: the socket takes the very buffer the driver filled.
    let mut buf = buf_from(&stack.inner.pool, &eth_frame(ETHERTYPE_CUSTOM, b"abcd"));
    buf.set_meta(with_id(0x1111));
    let res = stack.process_raw_ethernet(iface, ETHERTYPE_CUSTOM, false, buf);
    assert!(res.is_none());
    assert_eq!(stack.raw_socket(handle).recv().unwrap().meta().id, 0x1111);

    // Copied ingress (the stack wants the ethertype too): the copy is the same
    // packet, so it carries the same metadata.
    let mut buf = buf_from(&stack.inner.pool, &eth_frame(ARP, b"abcd"));
    buf.set_meta(with_id(0x2222));
    let res = stack.process_raw_ethernet(iface, ARP, true, buf);
    assert_eq!(res.unwrap().meta().id, 0x2222);
    assert_eq!(stack.raw_socket(handle).recv().unwrap().meta().id, 0x2222);

    // Egress: the metadata handed to send reaches the device, and a plain send
    // carries the default.
    let frame = eth_frame(ETHERTYPE_CUSTOM, b"out");
    let mut meta = PacketMeta::default();
    meta.id = 0x3333;
    stack.raw_socket(handle).send_slice_with_meta(&frame, meta).unwrap();
    stack.raw_socket(handle).send_slice(&frame).unwrap();
    assert_eq!(&*sent.borrow(), &[meta, PacketMeta::default()]);
}

#[test]
fn test_demux_ethernet() {
    let mut stack = TestStack::new();
    let (iface_a, _) = add_test_iface(&mut stack, Medium::Ethernet, vec![]);
    let (iface_b, _) = add_test_iface(&mut stack, Medium::Ethernet, vec![]);

    let h_custom = stack.add_raw_socket().unwrap();
    let h_any = stack.add_raw_socket().unwrap();
    stack
        .raw_socket(h_custom)
        .bind(RawMode::Ethernet {
            ethertype: Some(ETHERTYPE_CUSTOM),
        })
        .unwrap();
    stack
        .raw_socket(h_any)
        .bind(RawMode::Ethernet { ethertype: None })
        .unwrap();

    // Unbound sockets receive from every Ethernet interface; the first
    // matching socket takes the frame.
    let frame = eth_frame(ETHERTYPE_CUSTOM, b"hello");
    let res = stack.process_raw_ethernet(iface_a, ETHERTYPE_CUSTOM, false, buf_from(&stack.inner.pool, &frame));
    assert!(res.is_none());
    assert_eq!(stack.raw_socket(h_custom).recv().unwrap().as_slice(), &frame[..]);
    assert!(!stack.raw_socket(h_any).can_recv());
    let res = stack.process_raw_ethernet(iface_b, ETHERTYPE_CUSTOM, false, buf_from(&stack.inner.pool, &frame));
    assert!(res.is_none());
    assert_eq!(stack.raw_socket(h_custom).recv().unwrap().as_slice(), &frame[..]);

    // A stack-handled ethertype skips the filtered socket, and the wildcard
    // socket gets a copy while the packet itself is handed back.
    let frame = eth_frame(ARP, b"arp?");
    let res = stack.process_raw_ethernet(iface_a, ARP, true, buf_from(&stack.inner.pool, &frame));
    assert_eq!(res.unwrap().as_slice(), &frame[..]);
    assert!(!stack.raw_socket(h_custom).can_recv());
    assert_eq!(stack.raw_socket(h_any).recv().unwrap().as_slice(), &frame[..]);
}

#[test]
fn test_bind_to_iface_ethernet_demux() {
    let mut stack = TestStack::new();
    let (iface_a, _) = add_test_iface(&mut stack, Medium::Ethernet, vec![]);
    let (iface_b, _) = add_test_iface(&mut stack, Medium::Ethernet, vec![]);

    let handle = stack.add_raw_socket().unwrap();
    stack.raw_socket(handle).bind_to_iface(Some(iface_a)).unwrap();
    stack
        .raw_socket(handle)
        .bind(RawMode::Ethernet { ethertype: None })
        .unwrap();

    // A frame on another interface does not match a bound socket.
    let frame = eth_frame(ETHERTYPE_CUSTOM, b"hello");
    let res = stack.process_raw_ethernet(iface_b, ETHERTYPE_CUSTOM, false, buf_from(&stack.inner.pool, &frame));
    assert_eq!(res.unwrap().as_slice(), &frame[..]);
    assert!(!stack.raw_socket(handle).can_recv());

    // One on the bound interface does.
    let res = stack.process_raw_ethernet(iface_a, ETHERTYPE_CUSTOM, false, buf_from(&stack.inner.pool, &frame));
    assert!(res.is_none());
    assert_eq!(stack.raw_socket(handle).recv().unwrap().as_slice(), &frame[..]);
}

#[test]
fn test_send_ethernet() {
    let mut stack = TestStack::new();
    let (_iface, tx) = add_test_iface(&mut stack, Medium::Ethernet, vec![]);
    let handle = stack.add_raw_socket().unwrap();

    // Not bound yet.
    let frame = eth_frame(ETHERTYPE_CUSTOM, b"hello");
    assert_eq!(
        stack.raw_socket(handle).send_slice(&frame),
        Err(SendError::InvalidState)
    );

    stack
        .raw_socket(handle)
        .bind(RawMode::Ethernet {
            ethertype: Some(ETHERTYPE_CUSTOM),
        })
        .unwrap();

    assert_eq!(stack.raw_socket(handle).send_slice(&frame), Ok(()));
    assert_eq!(*tx.borrow(), vec![frame.clone()]);

    // Shorter than an Ethernet header.
    assert_eq!(stack.raw_socket(handle).send_slice(&[0; 10]), Err(SendError::Malformed));
    // Ethertype filter mismatch.
    let wrong = eth_frame(EthernetProtocol(ETHERTYPE_IPV4), b"hello");
    assert_eq!(stack.raw_socket(handle).send_slice(&wrong), Err(SendError::Malformed));
    assert_eq!(tx.borrow().len(), 1);
}

#[test]
fn test_send_ethernet_unbound_iface_selection() {
    let mut stack = TestStack::new();
    let handle = stack.add_raw_socket().unwrap();
    stack
        .raw_socket(handle)
        .bind(RawMode::Ethernet { ethertype: None })
        .unwrap();

    // No Ethernet interface at all: nothing to send on.
    let frame = eth_frame(ETHERTYPE_CUSTOM, b"hello");
    assert_eq!(
        stack.raw_socket(handle).send_slice(&frame),
        Err(SendError::Unaddressable)
    );

    // An unbound socket sends out the first Ethernet-medium interface. An
    // IP-medium one added earlier is skipped.
    let (_ip_iface, ip_tx) = add_test_iface(&mut stack, Medium::Ip, vec![]);
    let (_eth_iface, eth_tx) = add_test_iface(&mut stack, Medium::Ethernet, vec![]);
    stack.raw_socket(handle).send_slice(&frame).unwrap();
    assert!(ip_tx.borrow().is_empty());
    assert_eq!(eth_tx.borrow().len(), 1);
}

#[test]
fn test_bind_to_iface_ethernet_send() {
    // A bound socket sends out its interface, not the first one.
    let mut stack = TestStack::new();
    let (_eth_a, tx_a) = add_test_iface(&mut stack, Medium::Ethernet, vec![]);
    let (eth_b, tx_b) = add_test_iface(&mut stack, Medium::Ethernet, vec![]);

    let handle = stack.add_raw_socket().unwrap();
    stack.raw_socket(handle).bind_to_iface(Some(eth_b)).unwrap();
    stack
        .raw_socket(handle)
        .bind(RawMode::Ethernet { ethertype: None })
        .unwrap();

    let frame = eth_frame(ETHERTYPE_CUSTOM, b"hello");
    stack.raw_socket(handle).send_slice(&frame).unwrap();
    assert!(tx_a.borrow().is_empty());
    assert_eq!(tx_b.borrow().len(), 1);
}

#[test]
fn test_send_ip() {
    let mut stack = TestStack::new();
    let handle = stack.add_raw_socket().unwrap();
    stack
        .raw_socket(handle)
        .bind(RawMode::Ip {
            version: Some(IpVersion::V4),
            protocol: None,
        })
        .unwrap();

    // No interface: no route to the destination.
    let packet = ipv4_packet(IP_PROTO, b"abcd");
    assert_eq!(
        stack.raw_socket(handle).send_slice(&packet),
        Err(SendError::Unaddressable)
    );

    // An IP-medium interface with the destination on-link. The packet goes out
    // byte for byte, the zeroed header checksum proves nothing rewrites it.
    let (_iface, tx) = add_test_iface(
        &mut stack,
        Medium::Ip,
        vec![IpCidr::new(IpAddress::Ipv4(Ipv4Address::new(192, 168, 69, 1)), 24)],
    );
    assert_eq!(stack.raw_socket(handle).send_slice(&packet), Ok(()));
    assert_eq!(*tx.borrow(), vec![packet.clone()]);

    // Malformed: empty, bogus version nibble, truncated header.
    assert_eq!(stack.raw_socket(handle).send_slice(&[]), Err(SendError::Malformed));
    assert_eq!(
        stack.raw_socket(handle).send_slice(&[0xf0; 40]),
        Err(SendError::Malformed)
    );
    assert_eq!(
        stack.raw_socket(handle).send_slice(&packet[..10]),
        Err(SendError::Malformed)
    );
    // Version filter mismatch: an IPv6 packet on an IPv4-bound socket.
    let v6 = ipv6_packet(IP_PROTO, b"abcd");
    assert_eq!(stack.raw_socket(handle).send_slice(&v6), Err(SendError::Malformed));
    // Too big for a packet buffer (IP mode leaves room for the Ethernet header).
    assert_eq!(
        stack.raw_socket(handle).send_with(
            PACKET_BUF_SIZE - LINK_HEADER_LEN + 1,
            |_: &mut [u8]| unreachable!()
        ),
        Err(SendError::BufferFull)
    );
    assert_eq!(tx.borrow().len(), 1);
}

#[test]
fn test_bind_to_iface_ip() {
    let mut stack = TestStack::new();
    let (if0, tx0) = add_test_iface(&mut stack, Medium::Ip, vec![IpCidr::new(IpAddress::Ipv4(Ipv4Address::new(10, 0, 0, 1)), 24)]);
    let (if1, tx1) = add_test_iface(
        &mut stack,
        Medium::Ip,
        vec![IpCidr::new(IpAddress::Ipv4(Ipv4Address::new(192, 168, 69, 1)), 24)],
    );

    let handle = stack.add_raw_socket().unwrap();
    stack.raw_socket(handle).bind_to_iface(Some(if1)).unwrap();
    stack
        .raw_socket(handle)
        .bind(RawMode::Ip {
            version: None,
            protocol: None,
        })
        .unwrap();

    // Ingress filter: a packet arriving on another interface is not
    // delivered, one on the bound interface is.
    let packet = ipv4_packet(IP_PROTO, b"abcd");
    let res = stack.process_raw_ip(if0, IpVersion::V4, IP_PROTO, false, buf_from(&stack.inner.pool, &packet));
    assert!(res.is_some_and(|(_, handled)| !handled));
    assert!(!stack.raw_socket(handle).can_recv());
    let res = stack.process_raw_ip(if1, IpVersion::V4, IP_PROTO, false, buf_from(&stack.inner.pool, &packet));
    assert!(res.is_none());
    assert_eq!(stack.raw_socket(handle).recv().unwrap().as_slice(), &packet[..]);

    // Egress routes through the bound interface: the destination is
    // on-link for it, so the packet goes out of it.
    stack.raw_socket(handle).send_slice(&packet).unwrap();
    assert!(tx0.borrow().is_empty());
    assert_eq!(tx1.borrow().len(), 1);

    // Bound to the other interface, the same destination has no route.
    stack.raw_socket(handle).close();
    stack.raw_socket(handle).bind_to_iface(Some(if0)).unwrap();
    stack
        .raw_socket(handle)
        .bind(RawMode::Ip {
            version: None,
            protocol: None,
        })
        .unwrap();
    assert_eq!(
        stack.raw_socket(handle).send_slice(&packet),
        Err(SendError::Unaddressable)
    );
}

#[test]
fn test_send_ip_protocol_filter() {
    let mut stack = TestStack::new();
    let (_iface, tx) = add_test_iface(
        &mut stack,
        Medium::Ip,
        vec![IpCidr::new(IpAddress::Ipv4(Ipv4Address::new(192, 168, 69, 1)), 24)],
    );
    let handle = stack.add_raw_socket().unwrap();
    stack
        .raw_socket(handle)
        .bind(RawMode::Ip {
            version: None,
            protocol: Some(IP_PROTO),
        })
        .unwrap();

    assert_eq!(
        stack
            .raw_socket(handle)
            .send_slice(&ipv4_packet(TCP, b"nope")),
        Err(SendError::Malformed)
    );
    assert_eq!(
        stack.raw_socket(handle).send_slice(&ipv4_packet(IP_PROTO, b"yep")),
        Ok(())
    );
    assert_eq!(tx.borrow().len(), 1);
}


#[test]
fn test_send_ipv6() {
    let mut stack = TestStack::new();
    let handle = stack.add_raw_socket().unwrap();
    stack
        .raw_socket(handle)
        .bind(RawMode::Ip {
            version: Some(IpVersion::V6),
            protocol: Some(IP_PROTO),
        })
        .unwrap();

    // No interface owns an fdaa:: address: no route to the destination.
    let packet = ipv6_packet(IP_PROTO, b"abcd");
    assert_eq!(
        stack.raw_socket(handle).send_slice(&packet),
        Err(SendError::Unaddressable)
    );

    // With the destination on-link, the packet goes out byte for byte.
    let (_iface, tx) = add_test_iface(&mut stack, Medium::Ip, vec![local_v6()]);
    // Adding an IPv6 address may make the stack transmit on its own.
    tx.borrow_mut().clear();
    assert_eq!(stack.raw_socket(handle).send_slice(&packet), Ok(()));
    assert_eq!(*tx.borrow(), vec![packet.clone()]);

    // Version filter mismatch: an IPv4 packet on an IPv6-bound socket.
    assert_eq!(
        stack.raw_socket(handle).send_slice(&ipv4_packet(IP_PROTO, b"abcd")),
        Err(SendError::Malformed)
    );
    // Protocol filter mismatch.
    assert_eq!(
        stack
            .raw_socket(handle)
            .send_slice(&ipv6_packet(TCP, b"abcd")),
        Err(SendError::Malformed)
    );
    // Too big for a packet buffer: IP mode leaves room for the link header,
    // whatever medium the packet ends up going out of.
    let max = PACKET_BUF_SIZE - LINK_HEADER_LEN;
    assert_eq!(
        stack.raw_socket(handle).send_with(max + 1, |_: &mut [u8]| unreachable!()),
        Err(SendError::BufferFull)
    );
    assert_eq!(tx.borrow().len(), 1);
}

/// An ICMPv4 echo request: ident 0x1234, sequence 0x5678, 16 bytes of 0xff.
fn icmpv4_echo_request() -> Vec<u8> {
    let mut bytes = vec![0xff; 24];
    bytes[..8].copy_from_slice(&[8, 0, 0, 0, 0x12, 0x34, 0x56, 0x78]);
    let checksum = checksum_of(sum_words(&bytes));
    bytes[2..4].copy_from_slice(&checksum.to_be_bytes());
    bytes
}

/// What an ICMPv6 checksum covers besides the message.
fn pseudo_header(src_addr: &Ipv6Address, dst_addr: &Ipv6Address, len: usize) -> Vec<u8> {
    let mut bytes = Vec::new();
    bytes.extend_from_slice(&src_addr.bits.to_be_bytes());
    bytes.extend_from_slice(&dst_addr.bits.to_be_bytes());
    bytes.extend_from_slice(&(len as u32).to_be_bytes());
    bytes.extend_from_slice(&[0, 0, 0, IP_PROTOCOL_ICMPV6]);
    bytes
}

/// An ICMPv6 echo request, like [`icmpv4_echo_request`], with the checksum
/// computed over the given addresses.
fn icmpv6_echo_request(src_addr: &Ipv6Address, dst_addr: &Ipv6Address) -> Vec<u8> {
    let mut bytes = vec![0xff; 24];
    bytes[..8].copy_from_slice(&[128, 0, 0, 0, 0x12, 0x34, 0x56, 0x78]);
    let pseudo = pseudo_header(src_addr, dst_addr, bytes.len());
    let checksum = checksum_of(sum_words(&pseudo) + sum_words(&bytes));
    bytes[2..4].copy_from_slice(&checksum.to_be_bytes());
    bytes
}

#[test]
fn test_send_icmpv4_echo() {
    // Ping goes through a raw socket: the whole packet, ICMP header and
    // checksum included, is the user's and goes out untouched.
    let mut stack = TestStack::new();
    let (_iface, tx) = add_test_iface(&mut stack, Medium::Ip, vec![local_v4()]);
    let handle = stack.add_raw_socket().unwrap();
    stack
        .raw_socket(handle)
        .bind(RawMode::Ip {
            version: Some(IpVersion::V4),
            protocol: Some(ICMP),
        })
        .unwrap();

    let packet = ipv4_packet(ICMP, &icmpv4_echo_request());
    {
        let icmp = &packet[IPV4_HEADER_LEN..];
        assert_eq!(checksum_of(sum_words(icmp)), 0);
    }
    assert_eq!(stack.raw_socket(handle).send_slice(&packet), Ok(()));
    assert_eq!(*tx.borrow(), vec![packet.clone()]);

    // An unspecified destination is no destination.
    let mut unaddressable = packet.clone();
    unaddressable[16..20].fill(0);
    assert_eq!(
        stack.raw_socket(handle).send_slice(&unaddressable),
        Err(SendError::Unaddressable)
    );
    assert_eq!(tx.borrow().len(), 1);
}

#[test]
fn test_send_icmpv6_echo() {
    let mut stack = TestStack::new();
    let (_iface, tx) = add_test_iface(&mut stack, Medium::Ip, vec![local_v6()]);
    // Adding an IPv6 address may make the stack transmit on its own.
    tx.borrow_mut().clear();
    let handle = stack.add_raw_socket().unwrap();
    stack
        .raw_socket(handle)
        .bind(RawMode::Ip {
            version: Some(IpVersion::V6),
            protocol: Some(ICMPV6),
        })
        .unwrap();

    let src_addr = Ipv6Address::new(0xfdaa, 0, 0, 0, 0, 0, 0, 1);
    let dst_addr = Ipv6Address::new(0xfdaa, 0, 0, 0, 0, 0, 0, 2);
    let packet = ipv6_packet(ICMPV6, &icmpv6_echo_request(&src_addr, &dst_addr));
    {
        let icmp = &packet[IPV6_HEADER_LEN..];
        let pseudo = pseudo_header(&src_addr, &dst_addr, icmp.len());
        assert_eq!(checksum_of(sum_words(&pseudo) + sum_words(icmp)), 0);
    }
    assert_eq!(stack.raw_socket(handle).send_slice(&packet), Ok(()));
    assert_eq!(*tx.borrow(), vec![packet.clone()]);

    // An unspecified destination is no destination.
    let mut unaddressable = packet.clone();
    unaddressable[24..40].fill(0);
    assert_eq!(
        stack.raw_socket(handle).send_slice(&unaddressable),
        Err(SendError::Unaddressable)
    );
    assert_eq!(tx.borrow().len(), 1);
}

#[test]
fn test_unfiltered_sends_all() {
    // One unfiltered socket sends packets of either IP version and any
    // protocol.
    let mut stack = TestStack::new();
    let (_iface, tx) = add_test_iface(&mut stack, Medium::Ip, vec![local_v4(), local_v6()]);
    // Adding an IPv6 address may make the stack transmit on its own.
    tx.borrow_mut().clear();
    let handle = stack.add_raw_socket().unwrap();
    stack
        .raw_socket(handle)
        .bind(RawMode::Ip {
            version: None,
            protocol: None,
        })
        .unwrap();

    let packets = [
        ipv4_packet(UDP, b"v4 udp"),
        ipv4_packet(TCP, b"v4 tcp"),
        ipv6_packet(UDP, b"v6 udp"),
        ipv6_packet(TCP, b"v6 tcp"),
    ];
    for packet in &packets {
        assert_eq!(stack.raw_socket(handle).send_slice(packet), Ok(()));
    }
    assert_eq!(*tx.borrow(), packets.to_vec());
}

#[test]
fn test_unfiltered_accepts_all() {
    // Every one of these is a stack protocol, so ingress offers each socket a
    // copy and hands the packet back for the stack's own processing.
    let mut stack = TestStack::new();
    let iface = IfaceHandle::new(0);
    let packets = [
        (ICMP, ipv4_packet(ICMP, b"v4 icmp")),
        (TCP, ipv4_packet(TCP, b"v4 tcp")),
        (UDP, ipv4_packet(UDP, b"v4 udp")),
        (ICMPV6, ipv6_packet(ICMPV6, b"v6 icmp")),
        (TCP, ipv6_packet(TCP, b"v6 tcp")),
        (UDP, ipv6_packet(UDP, b"v6 udp")),
    ];

    // An unfiltered socket receives all of them.
    let handle = stack.add_raw_socket().unwrap();
    stack
        .raw_socket(handle)
        .bind(RawMode::Ip {
            version: None,
            protocol: None,
        })
        .unwrap();
    for (protocol, packet) in &packets {
        let version = IpVersion::of_packet(packet).unwrap();
        let res = stack.process_raw_ip(iface, version, *protocol, true, buf_from(&stack.inner.pool, packet));
        let (res_buf, handled) = res.unwrap();
        assert_eq!(res_buf.as_slice(), &packet[..]);
        assert!(handled);
        assert_eq!(stack.raw_socket(handle).recv().unwrap().as_slice(), &packet[..]);
    }

    // A socket filtered on (IPv6, ICMPv6) receives only that one.
    stack.raw_socket(handle).close();
    stack
        .raw_socket(handle)
        .bind(RawMode::Ip {
            version: Some(IpVersion::V6),
            protocol: Some(ICMPV6),
        })
        .unwrap();
    for (protocol, packet) in &packets {
        let version = IpVersion::of_packet(packet).unwrap();
        let res = stack.process_raw_ip(iface, version, *protocol, true, buf_from(&stack.inner.pool, packet));
        let (res_buf, handled) = res.unwrap();
        assert_eq!(res_buf.as_slice(), &packet[..]);
        let wanted = version == IpVersion::V6 && *protocol == ICMPV6;
        assert_eq!(handled, wanted);
        assert_eq!(stack.raw_socket(handle).can_recv(), wanted);
        if wanted {
            assert_eq!(stack.raw_socket(handle).recv().unwrap().as_slice(), &packet[..]);
        }
    }

    // A protocol filter does not override the version filter: an IPv4 packet
    // of the right protocol is not for an IPv6-bound socket.
    stack.raw_socket(handle).close();
    stack
        .raw_socket(handle)
        .bind(RawMode::Ip {
            version: Some(IpVersion::V6),
            protocol: Some(IP_PROTO),
        })
        .unwrap();
    let packet = ipv4_packet(IP_PROTO, b"v4 only");
    let res = stack.process_raw_ip(iface, IpVersion::V4, IP_PROTO, false, buf_from(&stack.inner.pool, &packet));
    let (res_buf, handled) = res.unwrap();
    assert_eq!(res_buf.as_slice(), &packet[..]);
    assert!(!handled);
    assert!(!stack.raw_socket(handle).can_recv());
}

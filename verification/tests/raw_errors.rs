//! Raw sockets under pressure.

use std::cell::RefCell;
use std::rc::Rc;
use std::sync::atomic::{AtomicUsize, Ordering};
use std::sync::Arc;
use std::task::{Wake, Waker};
use xarxa::config::{
    PACKET_BUF_COUNT, PACKET_BUF_SIZE, RAW_RX_QUEUE_COUNT, RAW_SOCKET_COUNT,
};
use xarxa::driver::{
    CallLog, Capabilities, ChecksumCapabilities, Driver, LinkState, PacketBuf, PacketMeta, TxTimestamp,
};
use xarxa::iface::{IfaceHandle, Medium};
use xarxa::raw::{BindError, RawHandle, RawMode, RecvError, SendError};
use xarxa::route::{Route, RouteOrigin};
use xarxa::stack::{LinkWork, Stack};
use xarxa::storage::Full;
use xarxa::time::Instant;
use xarxa::wire::{
    EthernetAddress, EthernetProtocol, HardwareAddress, IpAddress, IpCidr, IpProtocol, IpVersion,
    Ipv4Address,
};

struct TestDevice {
    hardware_addr: HardwareAddress,
    tx: Rc<RefCell<Vec<Vec<u8>>>>,
    room: Rc<RefCell<bool>>,
}

impl Driver for TestDevice {
    fn capabilities(&self) -> Capabilities {
        Capabilities {
            medium: self.hardware_addr.medium().into(),
            max_transmission_unit: 1514,
            lowpan_ip_mtu: 0,
            checksum: ChecksumCapabilities::none(),
        }
    }

    fn hardware_address(&self) -> HardwareAddress {
        self.hardware_addr
    }

    fn link_state(&mut self, _log: &mut CallLog) -> LinkState {
        LinkState::Up
    }

    fn can_transmit(&mut self, _log: &mut CallLog) -> bool {
        *self.room.borrow()
    }

    fn transmit(&mut self, packet: PacketBuf, _log: &mut CallLog) {
        self.tx.borrow_mut().push(packet.as_slice().to_vec());
    }

    fn poll_tx_timestamp(&mut self, _log: &mut CallLog) -> Option<TxTimestamp> {
        None
    }
}

type TestStack = Stack<TestDevice>;
type Sent = Rc<RefCell<Vec<Vec<u8>>>>;

fn add_iface(stack: &mut TestStack, medium: Medium) -> (IfaceHandle, Sent, Rc<RefCell<bool>>) {
    let tx: Sent = Rc::new(RefCell::new(Vec::new()));
    let room = Rc::new(RefCell::new(true));
    let hardware_addr = match medium {
        Medium::Ethernet => HardwareAddress::Ethernet(EthernetAddress(2, 0, 0, 0, 0, 1)),
        _ => HardwareAddress::Ip,
    };
    let handle = stack
        .add_iface(TestDevice { hardware_addr, tx: tx.clone(), room: room.clone() })
        .unwrap();
    (handle, tx, room)
}

const ANY_IP: RawMode = RawMode::Ip { version: None, protocol: None };
const ANY_FRAME: RawMode = RawMode::Ethernet { ethertype: None };

fn frame() -> Vec<u8> {
    let mut bytes = vec![0xaa; 20];
    bytes[12] = 0x88;
    bytes[13] = 0xb5;
    bytes
}

fn packet(dst: [u8; 4]) -> Vec<u8> {
    let mut bytes = vec![0; 24];
    bytes[0] = 0x45;
    bytes[3] = 24;
    bytes[9] = 63;
    bytes[12..16].copy_from_slice(&[192, 168, 69, 1]);
    bytes[16..20].copy_from_slice(&dst);
    bytes
}

/// A waker that counts how often it was woken.
struct Count(AtomicUsize);

impl Wake for Count {
    fn wake(self: Arc<Self>) {
        self.0.fetch_add(1, Ordering::SeqCst);
    }
}

#[test]
fn errors_in_words() {
    assert_eq!(BindError::InvalidState.description(), "invalid state");
    assert_eq!(BindError::InvalidMedium.description(), "invalid medium");
    assert_eq!(SendError::InvalidState.description(), "invalid state");
    assert_eq!(SendError::Unaddressable.description(), "unaddressable");
    assert_eq!(SendError::BufferFull.description(), "buffer full");
    assert_eq!(SendError::NoBuffer.description(), "no buffer");
    assert_eq!(SendError::DeviceBusy.description(), "device busy");
    assert_eq!(SendError::Malformed.description(), "malformed");
    assert_eq!(RecvError::InvalidState.description(), "invalid state");
    assert_eq!(RecvError::Exhausted.description(), "exhausted");
    assert_eq!(RecvError::Truncated.description(), "truncated");
}

#[test]
fn busy_device_is_remembered() {
    let mut stack = TestStack::new();
    let (eth, tx, room) = add_iface(&mut stack, Medium::Ethernet);
    let handle = stack.add_raw_socket().unwrap();
    stack.raw_socket(handle).bind(ANY_FRAME).unwrap();
    *room.borrow_mut() = false;
    assert_eq!(stack.raw_socket(handle).send_slice(&frame()), Err(SendError::DeviceBusy));
    assert_eq!(stack.raw_socket(handle).state.tx_blocked_on, Some(eth));
    *room.borrow_mut() = true;
    assert_eq!(stack.raw_socket(handle).send_slice(&frame()), Ok(()));
    assert_eq!(*tx.borrow(), vec![frame()]);
    stack.raw_socket(handle).close();
    assert_eq!(stack.raw_socket(handle).state.tx_blocked_on, None);
}

#[test]
fn busy_device_of_an_ip_packet() {
    let mut stack = TestStack::new();
    let (iface, tx, room) = add_iface(&mut stack, Medium::Ip);
    stack
        .iface(iface)
        .add_ip_addr(IpCidr::new(IpAddress::Ipv4(Ipv4Address::new(192, 168, 69, 1)), 24))
        .unwrap();
    let handle = stack.add_raw_socket().unwrap();
    stack.raw_socket(handle).bind(ANY_IP).unwrap();
    *room.borrow_mut() = false;
    let near = packet([192, 168, 69, 2]);
    assert_eq!(stack.raw_socket(handle).send_slice(&near), Err(SendError::DeviceBusy));
    assert_eq!(stack.raw_socket(handle).state.tx_blocked_on, Some(iface));
    // Broken packets are refused before the device is asked.
    assert_eq!(stack.raw_socket(handle).send_slice(&[0x45]), Err(SendError::Malformed));
    *room.borrow_mut() = true;
    // While fragments go out there is no room either.
    stack.ifaces.get_mut(iface.index).fragments_pending = true;
    assert_eq!(stack.raw_socket(handle).send_slice(&near), Err(SendError::DeviceBusy));
    stack.ifaces.get_mut(iface.index).fragments_pending = false;
    assert_eq!(stack.raw_socket(handle).send_slice(&near), Ok(()));
    assert_eq!(*tx.borrow(), vec![near]);
}

#[test]
fn buffers_run_out_and_come_back() {
    let mut stack = TestStack::new();
    let (_eth, tx, _room) = add_iface(&mut stack, Medium::Ethernet);
    let handle = stack.add_raw_socket().unwrap();
    stack.raw_socket(handle).bind(ANY_FRAME).unwrap();
    let mut held = Vec::new();
    while let Some(buf) = PacketBuf::try_new(&stack.inner.pool) {
        held.push(buf);
    }
    assert_eq!(held.len(), PACKET_BUF_COUNT);
    assert_eq!(stack.raw_socket(handle).send_slice(&frame()), Err(SendError::NoBuffer));
    // The socket misses the frame, the stack still gets it.
    let last = held.pop().unwrap();
    let rest = stack.process_raw_ethernet(
        IfaceHandle::new(0),
        EthernetProtocol(0x88b5),
        true,
        last,
    );
    assert!(rest.is_some());
    assert!(!stack.raw_socket(handle).can_recv());
    drop(rest);
    assert_eq!(stack.raw_socket(handle).send_slice(&frame()), Ok(()));
    assert_eq!(tx.borrow().len(), 1);
}

#[test]
fn frames_fill_a_whole_buffer() {
    let mut stack = TestStack::new();
    let (_eth, tx, _room) = add_iface(&mut stack, Medium::Ethernet);
    let handle = stack.add_raw_socket().unwrap();
    stack.raw_socket(handle).bind(ANY_FRAME).unwrap();
    assert_eq!(
        stack.raw_socket(handle).send_with(PACKET_BUF_SIZE + 1, |_: &mut [u8]| unreachable!()),
        Err(SendError::BufferFull)
    );
    // The closure gets zeros, and says how much of them it used.
    let sent = stack.raw_socket(handle).send_with(PACKET_BUF_SIZE, |buf: &mut [u8]| {
        assert_eq!(buf, &[0; PACKET_BUF_SIZE][..]);
        buf[12] = 0x88;
        15
    });
    assert_eq!(sent, Ok(()));
    assert_eq!(tx.borrow()[0].len(), 15);
    assert_eq!(tx.borrow()[0][12], 0x88);
}

#[test]
fn routed_packet_goes_to_the_router() {
    let mut stack = TestStack::new();
    let (eth, tx, _room) = add_iface(&mut stack, Medium::Ethernet);
    let router = IpAddress::Ipv4(Ipv4Address::new(10, 0, 0, 254));
    let handle = stack.add_raw_socket().unwrap();
    stack.raw_socket(handle).bind(ANY_IP).unwrap();
    let far = packet([8, 8, 8, 8]);
    assert_eq!(stack.raw_socket(handle).send_slice(&far), Err(SendError::Unaddressable));
    let default = Route {
        cidr: IpCidr::new(IpAddress::Ipv4(Ipv4Address::unspecified()), 0),
        via_router: router,
        iface: eth,
        origin: RouteOrigin::Manual,
        preferred_until: None,
        expires_at: Some(Instant::from_secs(100)),
    };
    stack.inner.routes.add(default).unwrap();
    assert_eq!(stack.raw_socket(handle).send_slice(&far), Ok(()));
    // An Ethernet interface leaves the rest to its link layer.
    assert!(tx.borrow().is_empty());
    assert_eq!(stack.inner.work.len(), 1);
    match &stack.inner.work[0] {
        LinkWork::SendIp { iface, next_hop, packet } => {
            assert_eq!(*iface, eth);
            assert_eq!(*next_hop, router);
            assert_eq!(packet.as_slice(), &far[..]);
        }
        _ => panic!("no packet to send"),
    }
    // A route that expired leads nowhere.
    stack.inner.now = Instant::from_secs(100);
    assert_eq!(stack.raw_socket(handle).send_slice(&far), Err(SendError::Unaddressable));
}

#[test]
fn full_queue_drops_what_arrives() {
    let mut stack = TestStack::new();
    let handle = stack.add_raw_socket().unwrap();
    stack.raw_socket(handle).bind(ANY_IP).unwrap();
    for i in 0..RAW_RX_QUEUE_COUNT as u8 + 1 {
        let mut buf = PacketBuf::try_new(&stack.inner.pool).unwrap();
        buf.append(&[i]);
        let rest = stack.process_raw_ip(
            IfaceHandle::new(0),
            IpVersion::V4,
            IpProtocol(63),
            false,
            buf,
        );
        assert!(rest.is_none());
    }
    let mut received = Vec::new();
    while let Ok(buf) = stack.raw_socket(handle).recv() {
        received.push(buf.as_slice()[0]);
    }
    assert_eq!(received, vec![0, 1, 2, 3]);
}

#[test]
fn waiting_tasks_are_woken() {
    let count = Arc::new(Count(AtomicUsize::new(0)));
    let waker = Waker::from(count.clone());
    let mut stack = TestStack::new();
    let handle = stack.add_raw_socket().unwrap();
    stack.raw_socket(handle).register_recv_waker(&waker);
    stack.raw_socket(handle).register_send_waker(&waker);
    stack.raw_socket(handle).bind(ANY_IP).unwrap();
    assert_eq!(count.0.load(Ordering::SeqCst), 2);
    stack.raw_socket(handle).register_recv_waker(&waker);
    let buf = PacketBuf::try_new(&stack.inner.pool).unwrap();
    stack.raw_socket(handle).state.rx_enqueue(buf);
    assert_eq!(count.0.load(Ordering::SeqCst), 3);
    stack.raw_socket(handle).register_send_waker(&waker);
    stack.raw_socket(handle).close();
    assert_eq!(count.0.load(Ordering::SeqCst), 4);
}

#[test]
fn raw_sockets_have_an_end_and_an_order() {
    let mut stack = TestStack::new();
    for index in 0..RAW_SOCKET_COUNT {
        assert_eq!(stack.add_raw_socket(), Ok(RawHandle::new(index)));
    }
    assert_eq!(stack.add_raw_socket(), Err(Full));
    stack.raw_socket(RawHandle::new(1)).bind(ANY_IP).unwrap();
    let mut iter = stack.raw_sockets();
    let mut seen = Vec::new();
    while let Some((handle, socket)) = iter.next() {
        seen.push((handle.index(), socket.is_open()));
    }
    assert_eq!(seen, vec![(0, false), (1, true), (2, false), (3, false)]);
}

#[test]
fn copy_is_the_same_packet() {
    let stack = TestStack::new();
    let mut buf = PacketBuf::try_new(&stack.inner.pool).unwrap();
    buf.append(b"hello");
    let meta = PacketMeta { id: 7, timestamp: Some(Instant::from_secs(1)), request_timestamp: true };
    buf.set_meta(meta);
    let copy = xarxa::raw::copy_packet(&stack.inner.pool, &buf).unwrap();
    assert_eq!(copy.as_slice(), b"hello");
    assert_eq!(copy.meta(), meta);
}

/// The flag says whether the socket received a copy, not whether one matched.
#[test]
fn full_queue_receives_no_copy() {
    let mut stack = TestStack::new();
    let handle = stack.add_raw_socket().unwrap();
    stack.raw_socket(handle).bind(ANY_IP).unwrap();
    let mut offer = |stack: &mut TestStack| {
        let mut buf = PacketBuf::try_new(&stack.inner.pool).unwrap();
        buf.append(&[1]);
        let rest = stack.process_raw_ip(
            IfaceHandle::new(0),
            IpVersion::V4,
            IpProtocol(1),
            true,
            buf,
        );
        let (buf, received) = rest.unwrap();
        assert_eq!(buf.as_slice(), &[1]);
        received
    };
    for _ in 0..RAW_RX_QUEUE_COUNT {
        assert!(offer(&mut stack));
    }
    assert!(!offer(&mut stack));
    // Without a buffer for the copy the socket misses the packet.
    stack.raw_socket(handle).recv().unwrap();
    let mut held = Vec::new();
    while let Some(buf) = PacketBuf::try_new(&stack.inner.pool) {
        held.push(buf);
    }
    held.pop();
    assert!(!offer(&mut stack));
    held.pop();
    assert!(offer(&mut stack));
}

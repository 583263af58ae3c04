//! TCP listeners.

use std::sync::atomic::{AtomicUsize, Ordering};
use std::sync::Arc;
use std::task::{Wake, Waker};
use xarxa::config::{TCP_LISTENER_BACKLOG, TCP_LISTENER_COUNT};
use xarxa::driver::{CallLog, Capabilities, Driver, LinkState, PacketBuf, TxTimestamp};
use xarxa::iface::{IfaceBinding, IfaceHandle};
use xarxa::stack::Stack;
use xarxa::storage::{Full, Slab};
use xarxa::tcp::listener::{
    process_listeners, TcpListenerHandle, TcpListenerState,
};
use xarxa::tcp::{
    ListenError, State, TcpControl, TcpRepr, TcpSeqNumber, TcpSocketState, TcpTimestampRepr, Tuple,
    DEFAULT_MSS, MIN_REMOTE_MSS,
};
use xarxa::wire::{
    HardwareAddress, IpAddress, IpEndpoint, IpListenAddress, IpListenEndpoint, IpVersion,
    Ipv4Address, Ipv6Address,
};

/// A stack without interfaces needs no driver.
enum NoDriver {}

impl Driver for NoDriver {
    fn capabilities(&self) -> Capabilities {
        unreachable!()
    }

    fn hardware_address(&self) -> HardwareAddress {
        unreachable!()
    }

    fn link_state(&mut self, _log: &mut CallLog) -> LinkState {
        unreachable!()
    }

    fn can_transmit(&mut self, _log: &mut CallLog) -> bool {
        unreachable!()
    }

    fn transmit(&mut self, _packet: PacketBuf, _log: &mut CallLog) {
        unreachable!()
    }

    fn poll_tx_timestamp(&mut self, _log: &mut CallLog) -> Option<TxTimestamp> {
        unreachable!()
    }
}

type TestStack = Stack<NoDriver>;

const IF0: IfaceHandle = IfaceHandle { index: 0 };
const IF1: IfaceHandle = IfaceHandle { index: 1 };

fn local() -> IpAddress {
    IpAddress::Ipv4(Ipv4Address::new(10, 0, 0, 1))
}

fn remote() -> IpAddress {
    IpAddress::Ipv4(Ipv4Address::new(10, 0, 0, 2))
}

fn any(port: u16) -> IpListenEndpoint {
    IpListenEndpoint { addr: IpListenAddress::Any, port }
}

fn segment(control: TcpControl, src_port: u16, seq: u32) -> TcpRepr {
    TcpRepr {
        src_port,
        dst_port: 80,
        control,
        seq_number: TcpSeqNumber(seq),
        ack_number: None,
        window_len: 4096,
        window_scale: Some(2),
        max_seg_size: Some(1460),
        sack_permitted: true,
        timestamp: Some(TcpTimestampRepr { tsval: 77, tsecr: 0 }),
    }
}

fn offer(stack: &mut TestStack, iface: IfaceHandle, repr: &TcpRepr) -> bool {
    process_listeners(&mut stack.sockets.tcp_listeners, iface, &remote(), &local(), repr)
}

/// A waker that counts how often it was woken.
struct Count(AtomicUsize);

impl Wake for Count {
    fn wake(self: Arc<Self>) {
        self.0.fetch_add(1, Ordering::SeqCst);
    }
}

#[test]
fn listen_errors() {
    let mut stack = TestStack::new();
    let a = stack.add_tcp_listener().unwrap();
    let b = stack.add_tcp_listener().unwrap();
    let mut listener = stack.tcp_listener(a);
    assert!(!listener.is_open());
    assert_eq!(listener.listen(any(0)), Err(ListenError::Unaddressable));
    assert_eq!(listener.listen(any(80)), Ok(()));
    assert!(listener.is_open());
    assert_eq!(listener.local_endpoint(), any(80));
    // The same endpoint again is a no-op.
    assert_eq!(listener.listen(any(80)), Ok(()));
    assert_eq!(listener.listen(any(81)), Err(ListenError::InvalidState));
    assert_eq!(listener.bind_to_iface(None), Err(ListenError::InvalidState));

    let mut other = stack.tcp_listener(b);
    assert_eq!(other.listen(any(80)), Err(ListenError::InUse));
    // Another specificity, or another interface, may coexist.
    assert_eq!(
        other.listen(IpListenEndpoint {
            addr: IpListenAddress::Version(IpVersion::V4),
            port: 80
        }),
        Ok(())
    );
    other.close();
    assert_eq!(other.bind_to_iface(Some(IF1)), Ok(()));
    assert_eq!(other.listen(any(80)), Ok(()));
    other.close();
    // The binding is kept across close.
    assert_eq!(other.bound_iface(), Some(IF1));
    assert_eq!(other.local_endpoint(), IpListenEndpoint::unspecified());
}

#[test]
fn listeners_have_an_end_and_an_order() {
    let mut stack = TestStack::new();
    for index in 0..TCP_LISTENER_COUNT {
        assert_eq!(stack.add_tcp_listener(), Ok(TcpListenerHandle::new(index)));
    }
    assert_eq!(stack.add_tcp_listener(), Err(Full));
    let mut iter = stack.tcp_listeners();
    let mut seen = Vec::new();
    while let Some((handle, listener)) = iter.next() {
        seen.push((handle.index(), listener.is_open()));
    }
    assert_eq!(seen, (0..TCP_LISTENER_COUNT).map(|i| (i, false)).collect::<Vec<_>>());
}

#[test]
fn attempts_are_accepted_in_order() {
    let mut stack = TestStack::new();
    let handle = stack.add_tcp_listener().unwrap();
    stack.tcp_listener(handle).listen(any(80)).unwrap();
    assert!(!stack.tcp_listener(handle).can_accept());
    assert!(offer(&mut stack, IF0, &segment(TcpControl::Syn, 1000, 5)));
    assert!(offer(&mut stack, IF0, &segment(TcpControl::Syn, 1001, u32::MAX)));
    let mut listener = stack.tcp_listener(handle);
    assert!(listener.can_accept());
    let first = listener.accept().unwrap();
    assert_eq!(first.local_endpoint(), IpEndpoint::new(local(), 80));
    assert_eq!(first.remote_endpoint(), IpEndpoint::new(remote(), 1000));
    assert_eq!(first.syn.remote_seq_no, TcpSeqNumber(6));
    let second = listener.accept().unwrap();
    assert_eq!(second.remote_endpoint(), IpEndpoint::new(remote(), 1001));
    // Sequence numbers wrap around.
    assert_eq!(second.syn.remote_seq_no, TcpSeqNumber(0));
    assert!(listener.accept().is_none());
}

#[test]
fn newest_syn_replaces_the_older_one() {
    let mut stack = TestStack::new();
    let handle = stack.add_tcp_listener().unwrap();
    stack.tcp_listener(handle).listen(any(80)).unwrap();
    offer(&mut stack, IF0, &segment(TcpControl::Syn, 1000, 5));
    offer(&mut stack, IF0, &segment(TcpControl::Syn, 1001, 6));
    offer(&mut stack, IF0, &segment(TcpControl::Syn, 1000, 50));
    let mut listener = stack.tcp_listener(handle);
    assert_eq!(listener.accept().unwrap().syn.remote_seq_no, TcpSeqNumber(51));
    assert_eq!(listener.accept().unwrap().syn.remote_seq_no, TcpSeqNumber(7));
    assert!(!listener.can_accept());
}

#[test]
fn full_backlog_drops_the_syn() {
    let mut stack = TestStack::new();
    let handle = stack.add_tcp_listener().unwrap();
    stack.tcp_listener(handle).listen(any(80)).unwrap();
    for port in 0..TCP_LISTENER_BACKLOG as u16 + 2 {
        assert!(offer(&mut stack, IF0, &segment(TcpControl::Syn, 1000 + port, 1)));
    }
    let mut accepted = Vec::new();
    while let Some(token) = stack.tcp_listener(handle).accept() {
        accepted.push(token.remote_endpoint().port);
    }
    assert_eq!(accepted, vec![1000, 1001, 1002, 1003]);
}

#[test]
fn reset_takes_an_attempt_back() {
    let mut stack = TestStack::new();
    let handle = stack.add_tcp_listener().unwrap();
    stack.tcp_listener(handle).listen(any(80)).unwrap();
    offer(&mut stack, IF0, &segment(TcpControl::Syn, 1000, 5));
    offer(&mut stack, IF0, &segment(TcpControl::Syn, 1001, 5));
    // Only the next expected sequence number counts.
    assert!(!offer(&mut stack, IF0, &segment(TcpControl::Rst, 1000, 5)));
    assert!(offer(&mut stack, IF0, &segment(TcpControl::Rst, 1000, 6)));
    assert!(!offer(&mut stack, IF0, &segment(TcpControl::Rst, 1000, 6)));
    let mut listener = stack.tcp_listener(handle);
    assert_eq!(listener.accept().unwrap().remote_endpoint().port, 1001);
    assert!(listener.accept().is_none());
}

#[test]
fn other_segments_are_left_alone() {
    let mut stack = TestStack::new();
    let handle = stack.add_tcp_listener().unwrap();
    stack.tcp_listener(handle).listen(any(80)).unwrap();
    for control in [TcpControl::Plain, TcpControl::Psh, TcpControl::Fin] {
        assert!(!offer(&mut stack, IF0, &segment(control, 1000, 5)));
    }
    let mut syn_ack = segment(TcpControl::Syn, 1000, 5);
    syn_ack.ack_number = Some(TcpSeqNumber(1));
    assert!(!offer(&mut stack, IF0, &syn_ack));
    let mut elsewhere = segment(TcpControl::Syn, 1000, 5);
    elsewhere.dst_port = 81;
    assert!(!offer(&mut stack, IF0, &elsewhere));
    assert!(!stack.tcp_listener(handle).can_accept());
}

#[test]
fn most_specific_listener_wins() {
    let mut stack = TestStack::new();
    let wildcard = stack.add_tcp_listener().unwrap();
    let version = stack.add_tcp_listener().unwrap();
    let exact = stack.add_tcp_listener().unwrap();
    let bound = stack.add_tcp_listener().unwrap();
    stack.tcp_listener(wildcard).listen(any(80)).unwrap();
    stack
        .tcp_listener(version)
        .listen(IpListenEndpoint { addr: IpListenAddress::Version(IpVersion::V4), port: 80 })
        .unwrap();
    stack
        .tcp_listener(exact)
        .listen(IpListenEndpoint { addr: IpListenAddress::Exact(local()), port: 80 })
        .unwrap();
    stack.tcp_listener(bound).bind_to_iface(Some(IF1)).unwrap();
    stack.tcp_listener(bound).listen(any(80)).unwrap();

    let scores = |index: usize, iface: IfaceHandle, stack: &TestStack| {
        stack.sockets.tcp_listeners.get(index).match_score(iface, &local(), 80)
    };
    assert_eq!(scores(0, IF0, &stack), Some(0));
    assert_eq!(scores(1, IF0, &stack), Some(1));
    assert_eq!(scores(2, IF0, &stack), Some(2));
    assert_eq!(scores(3, IF0, &stack), None);
    assert_eq!(scores(3, IF1, &stack), Some(4));

    offer(&mut stack, IF0, &segment(TcpControl::Syn, 1000, 5));
    assert!(stack.tcp_listener(exact).can_accept());
    offer(&mut stack, IF1, &segment(TcpControl::Syn, 1001, 5));
    let token = stack.tcp_listener(bound).accept().unwrap();
    assert_eq!(token.binding, IfaceBinding::Iface(IF1));
    assert!(!stack.tcp_listener(version).can_accept());
    assert!(!stack.tcp_listener(wildcard).can_accept());

    // An address of another version goes to the wildcard one.
    let v6 = IpAddress::Ipv6(Ipv6Address::new(0xfdaa, 0, 0, 0, 0, 0, 0, 1));
    let repr = segment(TcpControl::Syn, 1002, 5);
    assert!(process_listeners(&mut stack.sockets.tcp_listeners, IF0, &v6, &v6, &repr));
    assert!(stack.tcp_listener(wildcard).can_accept());
}

#[test]
fn segment_size_is_clamped() {
    let sizes = [
        (None, DEFAULT_MSS),
        (Some(0), DEFAULT_MSS),
        (Some(1), MIN_REMOTE_MSS),
        (Some(MIN_REMOTE_MSS as u16), MIN_REMOTE_MSS),
        (Some(1460), 1460),
        (Some(u16::MAX), 65535),
    ];
    for (offered, recorded) in sizes {
        let mut state = TcpListenerState::new();
        let mut repr = segment(TcpControl::Syn, 1000, 5);
        repr.max_seg_size = offered;
        state.record_syn(&remote(), &local(), &repr);
        assert_eq!(state.queue.front().unwrap().remote_mss, recorded);
    }
    assert_eq!(DEFAULT_MSS, 536);
}

#[test]
fn accepting_task_is_woken() {
    let count = Arc::new(Count(AtomicUsize::new(0)));
    let waker = Waker::from(count.clone());
    let mut stack = TestStack::new();
    let handle = stack.add_tcp_listener().unwrap();
    stack.tcp_listener(handle).listen(any(80)).unwrap();
    stack.tcp_listener(handle).register_accept_waker(&waker);
    offer(&mut stack, IF0, &segment(TcpControl::Syn, 1000, 5));
    assert_eq!(count.0.load(Ordering::SeqCst), 1);
    // A retransmission is no news.
    stack.tcp_listener(handle).register_accept_waker(&waker);
    offer(&mut stack, IF0, &segment(TcpControl::Syn, 1000, 5));
    assert_eq!(count.0.load(Ordering::SeqCst), 1);
    stack.tcp_listener(handle).close();
    assert_eq!(count.0.load(Ordering::SeqCst), 2);
    assert!(!stack.tcp_listener(handle).can_accept());
}

#[test]
fn accepted_attempt_becomes_a_socket() {
    let mut listeners: Slab<TcpListenerState, TCP_LISTENER_COUNT> = Slab::new();
    listeners.add_with(|_| TcpListenerState::new()).unwrap();
    let mut listener = xarxa::tcp::listener::TcpListener { listeners: &mut listeners, index: 0 };
    listener.bind_to_iface(Some(IF1)).unwrap();
    listener.listen(any(80)).unwrap();
    let mut repr = segment(TcpControl::Syn, 1000, 5);
    repr.window_scale = None;
    assert!(process_listeners(listener.listeners, IF1, &remote(), &local(), &repr));
    let token = listener.accept().unwrap();
    let mut socket = TcpSocketState {
        state: State::Closed,
        tuple: None,
        binding: IfaceBinding::Any,
        local_seq_no: TcpSeqNumber(0),
        remote_seq_no: TcpSeqNumber(0),
        remote_last_seq: TcpSeqNumber(0),
        remote_has_sack: false,
        remote_win_scale: Some(9),
        remote_win_shift: 7,
        remote_win_len: 0,
        remote_mss: 0,
        congestion_mss: 0,
        timestamps: false,
        last_remote_tsval: 0,
        tsval_offset: 0,
    };
    token.start_syn_received(&mut socket, TcpSeqNumber(1234), 99);
    assert_eq!(
        socket,
        TcpSocketState {
            state: State::SynReceived,
            tuple: Some(Tuple {
                local: IpEndpoint::new(local(), 80),
                remote: IpEndpoint::new(remote(), 1000),
            }),
            binding: IfaceBinding::Iface(IF1),
            local_seq_no: TcpSeqNumber(1234),
            remote_seq_no: TcpSeqNumber(6),
            remote_last_seq: TcpSeqNumber(1234),
            remote_has_sack: true,
            remote_win_scale: None,
            remote_win_shift: 0,
            remote_win_len: 4096,
            remote_mss: 1460,
            congestion_mss: 1460,
            timestamps: true,
            last_remote_tsval: 77,
            tsval_offset: 99,
        }
    );
}

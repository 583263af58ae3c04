//! Time, sizes, tables and routes.

use std::sync::atomic::{AtomicUsize, Ordering};
use std::sync::Arc;
use std::task::{Wake, Waker};
use xarxa::config::{packet_buf_driver_headroom, PACKET_BUF_COUNT, PACKET_BUF_SIZE, ROUTE_COUNT};
use xarxa::driver::{PacketBuf, PacketMeta, PacketPool};
use xarxa::iface::{IfaceBinding, IfaceHandle};
use xarxa::route::{Route, RouteOrigin, Routes};
use xarxa::storage::{BoundedDeque, BoundedVec, Full, Slab};
use xarxa::time::{Clock, Duration, Instant};
use xarxa::waker::WakerRegistration;
use xarxa::wire::{IpAddress, IpCidr, Ipv4Address};

const IF0: IfaceHandle = IfaceHandle { index: 0 };
const IF1: IfaceHandle = IfaceHandle { index: 1 };

#[test]
fn instants_and_durations() {
    let t = Instant::from_secs(5);
    assert_eq!(t, Instant::from_millis(5000));
    assert_eq!(t, Instant::from_micros(5_000_000));
    assert_eq!(t.after(Duration::from_secs(2)), Instant::from_secs(7));
    assert_eq!(Instant::from_secs(7).since(t), Duration::from_secs(2));
    assert_eq!(Duration::from_secs(2).secs(), 2);
}

#[test]
fn clock_waits_for_the_earliest_deadline() {
    let mut clock = Clock::new(Instant::from_secs(10));
    assert_eq!(clock.next(), Instant::max_value());
    assert!(!clock.expired(Instant::from_secs(30)));
    assert!(!clock.expired(Instant::from_secs(20)));
    assert!(!clock.expired(Instant::from_secs(25)));
    // What has expired is not waited for.
    assert!(clock.expired(Instant::from_secs(10)));
    assert_eq!(clock.next(), Instant::from_secs(20));
    clock.schedule(Instant::from_secs(15));
    assert_eq!(clock.next(), Instant::from_secs(15));
    assert_eq!(clock.now(), Instant::from_secs(10));
}

#[test]
fn driver_headroom_is_at_least_what_was_asked() {
    assert_eq!(packet_buf_driver_headroom(0), 0);
    assert_eq!(packet_buf_driver_headroom(1), 1);
    assert_eq!(packet_buf_driver_headroom(12), 12);
}

#[test]
fn packet_buffer_grows_at_both_ends() {
    let pool = PacketPool::new();
    let mut buf = PacketBuf::try_new(&pool).unwrap();
    assert_eq!(buf.capacity(), PACKET_BUF_SIZE);
    assert_eq!(buf.len(), 0);
    assert_eq!(buf.meta(), PacketMeta::default());
    buf.reserve(4);
    buf.append(b"body");
    buf.push_front(b"head");
    assert_eq!(buf.as_slice(), b"headbody");
    assert_eq!(buf.capacity(), PACKET_BUF_SIZE);
    buf.set_len(10);
    assert_eq!(buf.as_slice(), b"headbody\0\0");
    buf.set_len(2);
    buf.as_mut_slice()[0] = b'H';
    assert_eq!(buf.as_slice(), b"He");
}

#[test]
fn bounded_list() {
    let mut list: BoundedVec<u8, 2> = BoundedVec::new();
    assert_eq!(list.push(1), Ok(()));
    assert_eq!(list.push(2), Ok(()));
    assert_eq!(list.push(3), Err(3));
    assert_eq!(list.as_slice(), &[1, 2]);
    list.set(0, 9);
    assert_eq!(list.remove(0), 9);
    assert_eq!(*list.get(0), 2);
    assert_eq!(list.len(), 1);
}

#[test]
fn bounded_queue() {
    let mut queue: BoundedDeque<u8, 2> = BoundedDeque::new();
    assert!(queue.is_empty());
    assert_eq!(queue.push_back(1), Ok(()));
    assert_eq!(queue.push_back(2), Ok(()));
    assert_eq!(queue.push_back(3), Err(3));
    assert_eq!(queue.front(), Some(&1));
    assert_eq!(queue.pop_front(), Some(1));
    assert_eq!(queue.push_back(4), Ok(()));
    queue.set(0, 5);
    assert_eq!(queue.remove(1), 4);
    assert_eq!(queue.pop_front(), Some(5));
    assert_eq!(queue.pop_front(), None);
}

#[test]
fn full_slab_refuses_and_reuses() {
    let mut slab: Slab<usize, 2> = Slab::new();
    assert_eq!(slab.add_with(|i| i + 10), Ok(0));
    assert_eq!(slab.add_with(|i| i + 10), Ok(1));
    assert!(slab.is_full());
    assert_eq!(slab.add_with(|_| unreachable!()), Err(Full));
    assert!(!slab.contains(2));
    assert_eq!(slab.take(0), 10);
    assert!(!slab.contains(0));
    assert!(!slab.is_full());
    assert_eq!(slab.add_with(|i| i + 20), Ok(0));
    for (_, item) in slab.iter_mut() {
        *item += 1;
    }
    assert_eq!(slab.iter(), vec![(0, &21), (1, &12)]);
}

#[test]
fn waker_is_used_once() {
    struct Count(AtomicUsize);
    impl Wake for Count {
        fn wake(self: Arc<Self>) {
            self.0.fetch_add(1, Ordering::SeqCst);
        }
    }
    let count = Arc::new(Count(AtomicUsize::new(0)));
    let mut registration = WakerRegistration::new();
    registration.wake();
    registration.register(&Waker::from(count.clone()));
    registration.wake();
    registration.wake();
    assert_eq!(count.0.load(Ordering::SeqCst), 1);
}

fn route(net: [u8; 4], prefix_len: u8, router: u8, iface: IfaceHandle) -> Route {
    Route {
        cidr: IpCidr::new(
            IpAddress::Ipv4(Ipv4Address::new(net[0], net[1], net[2], net[3])),
            prefix_len,
        ),
        via_router: IpAddress::Ipv4(Ipv4Address::new(10, 0, 0, router)),
        iface,
        origin: RouteOrigin::Manual,
        preferred_until: None,
        expires_at: None,
    }
}

#[test]
fn longest_prefix_is_taken() {
    let mut routes = Routes::new();
    let now = Instant::zero();
    let dst = IpAddress::Ipv4(Ipv4Address::new(172, 16, 5, 1));
    assert!(routes.lookup(&dst, IfaceBinding::Any, now).is_none());
    routes.add(route([0, 0, 0, 0], 0, 1, IF0)).unwrap();
    routes.add(route([172, 16, 0, 0], 16, 2, IF1)).unwrap();
    routes.add(route([172, 17, 0, 0], 24, 3, IF0)).unwrap();
    let found = routes.lookup(&dst, IfaceBinding::Any, now).unwrap();
    assert_eq!(found.iface, IF1);
    // A bound socket uses the routes of its interface only.
    let found = routes.lookup(&dst, IfaceBinding::Iface(IF0), now).unwrap();
    assert_eq!(found.via_router, IpAddress::Ipv4(Ipv4Address::new(10, 0, 0, 1)));
}

#[test]
fn route_table_has_an_end() {
    let mut routes = Routes::new();
    for i in 0..ROUTE_COUNT as u8 {
        assert_eq!(routes.add(route([10, i, 0, 0], 16, 1, IF0)), Ok(()));
    }
    assert_eq!(routes.add(route([10, 99, 0, 0], 16, 1, IF0)), Err(Full));
}

#[test]
fn pool_has_as_many_buffers_as_configured() {
    let pool = PacketPool::new();
    assert_eq!(PacketBuf::try_new_among(&pool, 1).unwrap().len(), 0);
    assert!(PacketBuf::try_new_among(&pool, PACKET_BUF_COUNT).is_some());
    assert!(PacketBuf::try_new_among(&pool, PACKET_BUF_COUNT + 1).is_none());
    // A fresh pool gives them all out, and takes them back.
    let mut held: Vec<PacketBuf> =
        (0..PACKET_BUF_COUNT).map(|_| PacketBuf::try_new(&pool).unwrap()).collect();
    assert!(PacketBuf::try_new(&pool).is_none());
    held.pop();
    assert!(PacketBuf::try_new(&pool).is_some());
}

#[test]
fn copy_needs_a_buffer() {
    let pool = PacketPool::new();
    let mut buf = PacketBuf::try_new(&pool).unwrap();
    buf.append(b"packet");
    assert!(xarxa::raw::fill_copy(None, &buf).is_none());
    let copy = xarxa::raw::fill_copy(PacketBuf::try_new(&pool), &buf).unwrap();
    assert_eq!(copy.as_slice(), b"packet");
}

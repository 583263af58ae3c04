//! The stack: its interfaces and sockets, and what they share.

use crate::config::{IFACE_COUNT, RAW_SOCKET_COUNT, TCP_LISTENER_COUNT};
use crate::driver::{Capabilities, Driver, DriverCall, Packet, PacketBuf, PacketPool};
use crate::iface::state::{addr_on_link, IfaceState, IfaceView};
use crate::iface::access::IfaceIter;
use crate::iface::{Iface, IfaceBinding, IfaceHandle, Medium};
use crate::raw::{RawHandle, RawSocket, RawSocketIter, RawSocketState, RawView};
use crate::route::{best_route, Route, Routes};
use crate::storage::slab::{first_slot, lemma_first_slot, lemma_no_first_slot};
use crate::storage::{Full, Slab};
use crate::tcp::listener::{
    listener_views, listeners_wf, ListenerView, TcpListener, TcpListenerHandle, TcpListenerIter,
    TcpListenerState,
};
use crate::time::Instant;
use crate::wire::{HardwareAddress, IpAddress, ETHERNET_HEADER_LEN, LINK_HEADER_LEN};
use vstd::prelude::*;

verus! {

/// Work for the link layer of an interface: neighbor discovery, and sending what
/// needs it.
#[derive(Debug)]
pub enum LinkWork {
    /// Forget the neighbors of the interface, and what waits for them.
    Purge { iface: IfaceHandle },
    /// Learn the hardware address of a neighbor.
    FillNeighbor { iface: IfaceHandle, addr: IpAddress, hardware_addr: HardwareAddress },
    /// Send an IP packet to a neighbor.
    SendIp { iface: IfaceHandle, next_hop: IpAddress, packet: PacketBuf },
}

/// Work for the link layer of an interface.
pub enum LinkWorkView {
    Purge { iface: IfaceHandle },
    FillNeighbor { iface: IfaceHandle, addr: IpAddress, hardware_addr: HardwareAddress },
    SendIp { iface: IfaceHandle, next_hop: IpAddress, packet: Packet },
}

impl View for LinkWork {
    type V = LinkWorkView;

    open spec fn view(&self) -> LinkWorkView {
        match *self {
            LinkWork::Purge { iface } => LinkWorkView::Purge { iface },
            LinkWork::FillNeighbor { iface, addr, hardware_addr } => LinkWorkView::FillNeighbor {
                iface,
                addr,
                hardware_addr,
            },
            LinkWork::SendIp { iface, next_hop, packet } => LinkWorkView::SendIp {
                iface,
                next_hop,
                packet: packet@,
            },
        }
    }
}

impl LinkWork {
    /// A packet to send has room in front for the header of its link.
    pub open spec fn wf(self) -> bool {
        self matches LinkWork::SendIp { packet, .. } ==> packet.wf() && packet.room()
            >= LINK_HEADER_LEN
    }
}

/// What the interfaces and sockets of a stack share.
#[derive(Debug)]
pub struct StackInner {
    /// The time of the last poll.
    pub now: Instant,
    /// The routing table.
    pub routes: Routes,
    /// The work the link layers have not done yet, the oldest first.
    pub work: Vec<LinkWork>,
    /// Where packet buffers come from.
    pub pool: PacketPool,
}

/// What the interfaces and sockets of a stack share.
#[verifier::ext_equal]
pub struct InnerView {
    pub now: Instant,
    pub routes: Seq<Route>,
    pub work: Seq<LinkWorkView>,
}

impl View for StackInner {
    type V = InnerView;

    open spec fn view(&self) -> InnerView {
        InnerView {
            now: self.now,
            routes: self.routes@,
            work: self.work@.map_values(|work: LinkWork| work@),
        }
    }
}

impl InnerView {
    /// One more piece of work.
    pub open spec fn with_work(self, work: LinkWorkView) -> InnerView {
        InnerView { work: self.work.push(work), ..self }
    }
}

impl StackInner {
    /// The routing table is in order, and so is the work for the link layers.
    pub open spec fn wf(self) -> bool {
        &&& self.routes.wf()
        &&& forall|i: int| 0 <= i < self.work@.len() ==> (#[trigger] self.work@[i]).wf()
    }

    /// Nothing was learned and nothing is to be done yet.
    pub fn new() -> (inner: StackInner)
        ensures
            inner@ == (InnerView {
                now: Instant { micros: 0 },
                routes: Seq::empty(),
                work: Seq::empty(),
            }),
            inner.wf(),
    {
        let inner = StackInner {
            now: Instant::zero(),
            routes: Routes::new(),
            work: Vec::new(),
            pool: PacketPool::new(),
        };
        assert(inner@.work =~= Seq::empty());
        inner
    }

    /// Leave work to the link layer.
    pub fn push_work(&mut self, work: LinkWork)
        requires
            work.wf(),
        ensures
            final(self)@ == old(self)@.with_work(work@),
            final(self).routes == old(self).routes,
            old(self).wf() ==> final(self).wf(),
    {
        self.work.push(work);
        assert(self@.work =~= old(self)@.work.push(work@));
    }

    /// Forget the neighbors of an interface, and what waits for them.
    pub fn purge_iface_link_state(&mut self, iface: IfaceHandle)
        ensures
            final(self)@ == old(self)@.with_work(LinkWorkView::Purge { iface }),
            final(self).routes == old(self).routes,
            old(self).wf() ==> final(self).wf(),
    {
        self.push_work(LinkWork::Purge { iface });
    }

    /// Learn the hardware address of a neighbor.
    pub fn fill_neighbor(
        &mut self,
        iface: IfaceHandle,
        addr: IpAddress,
        hardware_addr: HardwareAddress,
    )
        ensures
            final(self)@ == old(self)@.with_work(
                LinkWorkView::FillNeighbor { iface, addr, hardware_addr },
            ),
            final(self).routes == old(self).routes,
            old(self).wf() ==> final(self).wf(),
    {
        self.push_work(LinkWork::FillNeighbor { iface, addr, hardware_addr });
    }
}

/// The state of every interface.
pub open spec fn iface_views<D>(ifaces: Map<int, IfaceState<D>>) -> Map<int, IfaceView> {
    Map::new(|index: int| ifaces.contains_key(index), |index: int| ifaces[index]@)
}

/// Whether every interface is in order and knows its handle.
pub open spec fn ifaces_wf<D>(ifaces: Map<int, IfaceState<D>>) -> bool {
    forall|index: int| #[trigger]
        ifaces.contains_key(index) ==> ifaces[index]@.wf() && ifaces[index]@.handle.index == index
}

/// Where a packet goes: out of an interface, to a neighbor.
#[derive(Clone, Copy, PartialEq, Eq, Structural, Debug)]
pub struct RouteTarget {
    pub iface: IfaceHandle,
    pub next_hop: IpAddress,
}

/// What sockets send through: the interfaces, and what they share.
#[verifier::ext_equal]
pub struct TxView {
    pub ifaces: Map<int, IfaceView>,
    pub inner: InnerView,
}

/// Whether an interface is an Ethernet one.
pub open spec fn is_ethernet() -> spec_fn(IfaceView) -> bool {
    |iface: IfaceView| iface.medium == Medium::Ethernet
}

/// Whether an interface may be used under the binding.
pub open spec fn is_admitted(binding: IfaceBinding) -> spec_fn(IfaceView) -> bool {
    |iface: IfaceView| binding.admits(iface.handle)
}

/// Whether an interface may be used under the binding, and `dst` is on its link.
pub open spec fn is_on_link(binding: IfaceBinding, dst: IpAddress) -> spec_fn(IfaceView) -> bool {
    |iface: IfaceView| binding.admits(iface.handle) && addr_on_link(iface.ip_addrs, dst)
}

impl TxView {
    /// Where a packet to `dst` goes under the binding. Multicast and broadcast
    /// packets go out of the first interface. Others go straight to a destination
    /// that is on-link, else to the router of the best route.
    pub open spec fn route_to(self, binding: IfaceBinding, dst: IpAddress) -> Option<RouteTarget> {
        if dst.for_many() {
            match first_slot(self.ifaces, is_admitted(binding)) {
                Some(i) => Some(
                    RouteTarget { iface: IfaceHandle { index: i as usize }, next_hop: dst },
                ),
                None => None,
            }
        } else {
            match first_slot(self.ifaces, is_on_link(binding, dst)) {
                Some(i) => Some(
                    RouteTarget { iface: IfaceHandle { index: i as usize }, next_hop: dst },
                ),
                None => match best_route(self.inner.routes, dst, binding, self.inner.now) {
                    Some(route) => if self.ifaces.contains_key(route.iface.index as int) {
                        Some(RouteTarget { iface: route.iface, next_hop: route.via_router })
                    } else {
                        None
                    },
                    None => None,
                },
            }
        }
    }

    /// The same, with one interface changed.
    pub open spec fn with_iface(self, index: int, iface: IfaceView) -> TxView {
        TxView { ifaces: self.ifaces.insert(index, iface), ..self }
    }

    /// The interface at `index` was asked for room for a packet, and answered.
    /// While fragments are going out the driver is not even asked.
    pub open spec fn asked(self, index: int, room: bool) -> TxView {
        if self.ifaces[index].fragments_pending {
            self
        } else {
            self.with_iface(
                index,
                self.ifaces[index].called(DriverCall::CanTransmit(room)),
            )
        }
    }

    /// Whether the interface at `index` can answer so.
    pub open spec fn can_answer(self, index: int, room: bool) -> bool {
        self.ifaces[index].fragments_pending ==> !room
    }

    /// A frame was handed to the driver of the interface at `index`.
    pub open spec fn transmitted(self, index: int, packet: Packet) -> TxView {
        self.with_iface(index, self.ifaces[index].called(DriverCall::Transmit(packet)))
    }

    /// An IP packet was sent along a route: straight to the driver of an interface
    /// without a link layer, else through the link layer.
    pub open spec fn sent_ip(self, route: RouteTarget, packet: Packet) -> TxView {
        let index = route.iface.index as int;
        if self.ifaces[index].medium == Medium::Ip {
            self.transmitted(index, packet)
        } else {
            TxView {
                inner: self.inner.with_work(
                    LinkWorkView::SendIp { iface: route.iface, next_hop: route.next_hop, packet },
                ),
                ..self
            }
        }
    }
}

/// What sockets send through.
pub struct TxContext<'a, D> {
    pub inner: &'a mut StackInner,
    pub ifaces: &'a mut Slab<IfaceState<D>, IFACE_COUNT>,
}

impl<'a, D> TxContext<'a, D> {
    /// The interfaces and what they share.
    pub open spec fn view(&self) -> TxView {
        TxView { ifaces: iface_views(self.ifaces@), inner: self.inner@ }
    }

    /// The interfaces and what they share are in order.
    pub open spec fn wf(&self) -> bool {
        ifaces_wf(self.ifaces@) && self.inner.wf()
    }

    /// The first Ethernet interface.
    pub fn first_ethernet_iface(&self) -> (iface: Option<IfaceHandle>)
        ensures
            match first_slot(self@.ifaces, is_ethernet()) {
                Some(i) => iface == Some(IfaceHandle { index: i as usize }) && 0 <= i <= usize::MAX
                    && self@.ifaces.contains_key(i),
                None => iface is None,
            },
    {
        let ghost p = is_ethernet();
        let mut from: usize = 0;
        loop
            invariant
                p == is_ethernet(),
                forall|i: int|
                    0 <= i < from && #[trigger] self@.ifaces.contains_key(i) ==> !p(
                        self@.ifaces[i],
                    ),
            decreases usize::MAX - from,
        {
            match self.ifaces.next_occupied(from) {
                Some(index) => {
                    if self.ifaces.get(index).medium() == Medium::Ethernet {
                        proof {
                            lemma_first_slot(self@.ifaces, p, index as int);
                        }
                        return Some(IfaceHandle::new(index));
                    }
                    from = index + 1;
                },
                None => {
                    proof {
                        lemma_no_first_slot(self@.ifaces, p);
                    }
                    return None;
                },
            }
        }
    }

    /// The first interface that reaches `dst` without a router, under the binding.
    fn first_local_iface(&self, binding: IfaceBinding, dst: &IpAddress) -> (iface: Option<
        IfaceHandle,
    >)
        requires
            self.wf(),
        ensures
            match first_slot(
                self@.ifaces,
                if dst.for_many() {
                    is_admitted(binding)
                } else {
                    is_on_link(binding, *dst)
                },
            ) {
                Some(i) => iface == Some(IfaceHandle { index: i as usize }) && 0 <= i <= usize::MAX
                    && self@.ifaces.contains_key(i),
                None => iface is None,
            },
    {
        let ghost p = if dst.for_many() {
            is_admitted(binding)
        } else {
            is_on_link(binding, *dst)
        };
        let for_many: bool = dst.is_for_many();
        let mut from: usize = 0;
        loop
            invariant
                self.wf(),
                for_many == dst.for_many(),
                p == if dst.for_many() {
                    is_admitted(binding)
                } else {
                    is_on_link(binding, *dst)
                },
                forall|i: int|
                    0 <= i < from && #[trigger] self@.ifaces.contains_key(i) ==> !p(
                        self@.ifaces[i],
                    ),
            decreases usize::MAX - from,
        {
            match self.ifaces.next_occupied(from) {
                Some(index) => {
                    let iface = self.ifaces.get(index);
                    assert(self.ifaces@.contains_key(index as int));
                    if binding.matches(iface.handle) && (for_many || iface.in_same_network(dst)) {
                        proof {
                            lemma_first_slot(self@.ifaces, p, index as int);
                        }
                        return Some(IfaceHandle::new(index));
                    }
                    from = index + 1;
                },
                None => {
                    proof {
                        lemma_no_first_slot(self@.ifaces, p);
                    }
                    return None;
                },
            }
        }
    }

    /// Where a packet to `dst` goes under the binding.
    pub fn route(&self, binding: IfaceBinding, dst: &IpAddress) -> (target: Option<RouteTarget>)
        requires
            self.wf(),
        ensures
            target == self@.route_to(binding, *dst),
            target matches Some(t) ==> self@.ifaces.contains_key(t.iface.index as int),
    {
        if let Some(iface) = self.first_local_iface(binding, dst) {
            return Some(RouteTarget { iface, next_hop: *dst });
        }
        if dst.is_for_many() {
            return None;
        }
        match self.inner.routes.lookup(dst, binding, self.inner.now) {
            Some(route) => if self.ifaces.contains(route.iface.index()) {
                Some(RouteTarget { iface: route.iface, next_hop: route.via_router })
            } else {
                None
            },
            None => None,
        }
    }
}

impl<'a, D: Driver> TxContext<'a, D> {
    /// Whether an interface has room for a packet right now.
    pub fn can_transmit(&mut self, iface: IfaceHandle) -> (room: bool)
        requires
            old(self).wf(),
            old(self).ifaces@.contains_key(iface.index as int),
        ensures
            final(self).wf(),
            final(self)@ == old(self)@.asked(iface.index as int, room),
            final(self).ifaces@.dom() =~= old(self).ifaces@.dom(),
            old(self)@.can_answer(iface.index as int, room),
            *final(final(self).inner) == *final(old(self).inner),
            *final(final(self).ifaces) == *final(old(self).ifaces),
    {
        let room = self.ifaces.get_mut(iface.index()).can_transmit_new_packet();
        assert(self@.ifaces =~= old(self)@.asked(iface.index as int, room).ifaces);
        room
    }

    /// Hand a frame to the driver of an interface.
    pub fn transmit_ethernet(&mut self, iface: IfaceHandle, packet: PacketBuf)
        requires
            old(self).wf(),
            old(self).ifaces@.contains_key(iface.index as int),
        ensures
            final(self).wf(),
            final(self)@ == old(self)@.transmitted(iface.index as int, packet@),
            final(self).ifaces@.dom() =~= old(self).ifaces@.dom(),
            *final(final(self).inner) == *final(old(self).inner),
            *final(final(self).ifaces) == *final(old(self).ifaces),
    {
        let state = self.ifaces.get_mut(iface.index());
        state.driver.transmit(packet, &mut state.calls);
        assert(self@.ifaces =~= old(self)@.transmitted(iface.index as int, packet@).ifaces);
    }

    /// Send an IP packet along a route. It has room in front for the header of its
    /// link.
    pub fn transmit_raw_ip(&mut self, route: &RouteTarget, packet: PacketBuf)
        requires
            old(self).wf(),
            packet.wf(),
            packet.room() >= LINK_HEADER_LEN,
            old(self).ifaces@.contains_key(route.iface.index as int),
        ensures
            final(self).wf(),
            final(self)@ == old(self)@.sent_ip(*route, packet@),
            final(self).ifaces@.dom() =~= old(self).ifaces@.dom(),
            *final(final(self).inner) == *final(old(self).inner),
            *final(final(self).ifaces) == *final(old(self).ifaces),
    {
        let iface = self.ifaces.get_mut(route.iface.index());
        if iface.medium() == Medium::Ip {
            iface.driver.transmit(packet, &mut iface.calls);
            assert(self@.ifaces =~= old(self)@.sent_ip(*route, packet@).ifaces);
        } else {
            self.inner.push_work(
                LinkWork::SendIp { iface: route.iface, next_hop: route.next_hop, packet },
            );
            assert(self@.ifaces =~= old(self)@.ifaces);
        }
    }
}

/// The sockets of a stack.
pub struct Sockets {
    pub raw: Slab<RawSocketState, RAW_SOCKET_COUNT>,
    pub tcp_listeners: Slab<TcpListenerState, TCP_LISTENER_COUNT>,
}

/// The state of every raw socket.
pub open spec fn raw_views(sockets: Map<int, RawSocketState>) -> Map<int, RawView> {
    Map::new(|index: int| sockets.contains_key(index), |index: int| sockets[index]@)
}

/// Whether every raw socket is in order.
pub open spec fn raw_sockets_wf(sockets: Map<int, RawView>) -> bool {
    forall|index: int| #[trigger] sockets.contains_key(index) ==> sockets[index].wf()
}

/// Why an interface cannot be added.
#[derive(Clone, Copy, PartialEq, Eq, Structural, Debug)]
pub enum AddIfaceError {
    /// There is no room for another interface.
    Full,
    /// The hardware address is not of the kind the driver's medium uses.
    InvalidHardwareAddr,
    /// The longest Ethernet frame has no room for its header.
    InvalidMtu,
}

/// A network stack: its interfaces and sockets, and what they share.
pub struct Stack<D> {
    pub inner: StackInner,
    pub ifaces: Slab<IfaceState<D>, IFACE_COUNT>,
    pub sockets: Sockets,
}

/// What a stack is made of.
#[verifier::ext_equal]
pub struct StackView {
    pub inner: InnerView,
    pub ifaces: Map<int, IfaceView>,
    pub raw: Map<int, RawView>,
    pub tcp_listeners: Map<int, ListenerView>,
}

impl<D> View for Stack<D> {
    type V = StackView;

    open spec fn view(&self) -> StackView {
        StackView {
            inner: self.inner@,
            ifaces: iface_views(self.ifaces@),
            raw: raw_views(self.sockets.raw@),
            tcp_listeners: listener_views(self.sockets.tcp_listeners@),
        }
    }
}

/// What is wrong with an interface to be added, if anything.
pub open spec fn iface_error(caps: Capabilities, hardware_addr: HardwareAddress) -> Option<
    AddIfaceError,
> {
    if hardware_addr.used_on().for_driver() != caps.medium {
        Some(AddIfaceError::InvalidHardwareAddr)
    } else if hardware_addr.used_on() == Medium::Ethernet && caps.max_transmission_unit
        < ETHERNET_HEADER_LEN {
        Some(AddIfaceError::InvalidMtu)
    } else {
        None
    }
}

impl<D> Stack<D> {
    /// The interfaces, the sockets and what they share are in order.
    pub open spec fn wf(&self) -> bool {
        &&& self.inner.wf()
        &&& ifaces_wf(self.ifaces@)
        &&& raw_sockets_wf(self@.raw)
        &&& listeners_wf(self@.tcp_listeners)
    }

    /// A stack without interfaces and sockets.
    pub fn new() -> (stack: Stack<D>)
        ensures
            stack.wf(),
            stack@ == (StackView {
                inner: InnerView {
                    now: Instant { micros: 0 },
                    routes: Seq::empty(),
                    work: Seq::empty(),
                },
                ifaces: Map::empty(),
                raw: Map::empty(),
                tcp_listeners: Map::empty(),
            }),
    {
        Stack {
            inner: StackInner::new(),
            ifaces: Slab::new(),
            sockets: Sockets { raw: Slab::new(), tcp_listeners: Slab::new() },
        }
    }

    /// Access the interface with the given handle.
    pub fn iface(&mut self, handle: IfaceHandle) -> (iface: Iface<'_, D>)
        requires
            old(self).wf(),
            old(self).ifaces@.contains_key(handle.index as int),
        ensures
            iface.wf(),
            iface.index == handle.index,
            *iface.inner == old(self).inner,
            *iface.ifaces == old(self).ifaces,
            final(self).inner == *final(iface.inner),
            final(self).ifaces == *final(iface.ifaces),
            final(self).sockets == old(self).sockets,
    {
        Iface { inner: &mut self.inner, ifaces: &mut self.ifaces, index: handle.index() }
    }

    /// Go through the interfaces.
    pub fn ifaces(&mut self) -> (iter: IfaceIter<'_, D>)
        ensures
            *iter.stack == *old(self),
            *final(iter.stack) == *final(self),
            iter.next == 0,
    {
        IfaceIter { stack: self, next: 0 }
    }

    /// Add a raw socket. It is not bound.
    pub fn add_raw_socket(&mut self) -> (result: Result<RawHandle, Full>)
        requires
            old(self).wf(),
        ensures
            final(self).wf(),
            match result {
                Ok(handle) => {
                    &&& old(self).sockets.raw.first_free(handle.index as int)
                    &&& final(self)@ == (StackView {
                        raw: old(self)@.raw.insert(handle.index as int, RawView::unbound()),
                        ..old(self)@
                    })
                },
                Err(_) => old(self).sockets.raw.spec_full() && final(self)@ == old(self)@,
            },
    {
        let build = |index: usize| -> (state: RawSocketState)
            ensures
                state@ == RawView::unbound(),
            { RawSocketState::new() };
        let ghost before = self@;
        match self.sockets.raw.add_with(build) {
            Ok(index) => {
                assert(self@.raw =~= before.raw.insert(index as int, RawView::unbound()));
                assert(raw_sockets_wf(before.raw));
                Ok(RawHandle::new(index))
            },
            Err(full) => Err(full),
        }
    }

    /// Access the raw socket with the given handle.
    pub fn raw_socket(&mut self, handle: RawHandle) -> (socket: RawSocket<'_, D>)
        requires
            old(self).wf(),
            old(self).sockets.raw@.contains_key(handle.index as int),
        ensures
            socket.socket().wf(),
            socket.tx.wf(),
            *socket.state == old(self).sockets.raw@[handle.index as int],
            *socket.tx.inner == old(self).inner,
            *socket.tx.ifaces == old(self).ifaces,
            final(self).inner == *final(socket.tx.inner),
            final(self).ifaces == *final(socket.tx.ifaces),
            final(self).sockets.raw@ == old(self).sockets.raw@.insert(
                handle.index as int,
                *final(socket.state),
            ),
            final(self).sockets.tcp_listeners == old(self).sockets.tcp_listeners,
    {
        assert(self@.raw.contains_key(handle.index as int));
        RawSocket {
            state: self.sockets.raw.get_mut(handle.index()),
            tx: TxContext { inner: &mut self.inner, ifaces: &mut self.ifaces },
        }
    }

    /// Go through the raw sockets.
    pub fn raw_sockets(&mut self) -> (iter: RawSocketIter<'_, D>)
        ensures
            *iter.stack == *old(self),
            *final(iter.stack) == *final(self),
            iter.next == 0,
    {
        RawSocketIter { stack: self, next: 0 }
    }

    /// Add a TCP listener. It does not listen yet.
    pub fn add_tcp_listener(&mut self) -> (result: Result<TcpListenerHandle, Full>)
        requires
            old(self).wf(),
        ensures
            final(self).wf(),
            match result {
                Ok(handle) => {
                    &&& old(self).sockets.tcp_listeners.first_free(handle.index as int)
                    &&& final(self)@ == (StackView {
                        tcp_listeners: old(self)@.tcp_listeners.insert(
                            handle.index as int,
                            ListenerView::not_listening(),
                        ),
                        ..old(self)@
                    })
                },
                Err(_) => old(self).sockets.tcp_listeners.spec_full() && final(self)@ == old(self)@,
            },
    {
        let build = |index: usize| -> (state: TcpListenerState)
            ensures
                state@ == ListenerView::not_listening(),
                state@.wf(),
            { TcpListenerState::new() };
        let ghost before = self@;
        match self.sockets.tcp_listeners.add_with(build) {
            Ok(index) => {
                proof {
                    let after = self@.tcp_listeners;
                    assert(after =~= before.tcp_listeners.insert(
                        index as int,
                        ListenerView::not_listening(),
                    ));
                    assert(self.sockets.tcp_listeners@[index as int]@.wf());
                    assert forall|i: int| #[trigger] after.contains_key(i) implies after[i].wf() by {
                        assert(i == index || before.tcp_listeners.contains_key(i));
                    }
                    assert forall|i: int, j: int| #[trigger]
                        after.contains_key(i) && #[trigger] after.contains_key(j) && i != j
                            && after[i].local.port != 0 implies !(after[i].local
                        == after[j].local && after[i].binding == after[j].binding) by {
                        assert(i == index || before.tcp_listeners.contains_key(i));
                        assert(j == index || before.tcp_listeners.contains_key(j));
                    }
                }
                Ok(TcpListenerHandle::new(index))
            },
            Err(full) => Err(full),
        }
    }

    /// Access the TCP listener with the given handle.
    pub fn tcp_listener(&mut self, handle: TcpListenerHandle) -> (listener: TcpListener<'_>)
        requires
            old(self).wf(),
            old(self).sockets.tcp_listeners@.contains_key(handle.index as int),
        ensures
            listener.wf(),
            listener.index == handle.index,
            *listener.listeners == old(self).sockets.tcp_listeners,
            final(self).sockets.tcp_listeners == *final(listener.listeners),
            final(self).sockets.raw == old(self).sockets.raw,
            final(self).inner == old(self).inner,
            final(self).ifaces == old(self).ifaces,
    {
        TcpListener { listeners: &mut self.sockets.tcp_listeners, index: handle.index() }
    }

    /// Go through the TCP listeners.
    pub fn tcp_listeners(&mut self) -> (iter: TcpListenerIter<'_, D>)
        ensures
            *iter.stack == *old(self),
            *final(iter.stack) == *final(self),
            iter.next == 0,
    {
        TcpListenerIter { stack: self, next: 0 }
    }
}

impl<D: Driver> Stack<D> {
    /// Add an interface for a driver with these capabilities and this hardware
    /// address. It gets the link-local address of its hardware address, if that
    /// has one.
    pub fn add_iface_with(
        &mut self,
        driver: D,
        caps: Capabilities,
        hardware_addr: HardwareAddress,
    ) -> (result: Result<IfaceHandle, AddIfaceError>)
        requires
            old(self).wf(),
        ensures
            final(self).wf(),
            match result {
                Ok(handle) => {
                    &&& iface_error(caps, hardware_addr) is None
                    &&& old(self).ifaces.first_free(handle.index as int)
                    &&& final(self)@ == (StackView {
                        ifaces: old(self)@.ifaces.insert(
                            handle.index as int,
                            IfaceView::added(handle, caps, hardware_addr),
                        ),
                        ..old(self)@
                    })
                    &&& final(self).ifaces@[handle.index as int].driver == driver
                },
                Err(error) => {
                    &&& match iface_error(caps, hardware_addr) {
                        Some(wrong) => error == wrong,
                        None => error == AddIfaceError::Full && old(self).ifaces.spec_full(),
                    }
                    &&& final(self)@ == old(self)@
                },
            },
    {
        match Medium::from_driver(caps.medium) {
            Some(medium) => {
                if hardware_addr.medium() != medium {
                    return Err(AddIfaceError::InvalidHardwareAddr);
                }
            },
            None => {
                return Err(AddIfaceError::InvalidHardwareAddr);
            },
        }
        if hardware_addr.medium() == Medium::Ethernet && caps.max_transmission_unit
            < ETHERNET_HEADER_LEN {
            return Err(AddIfaceError::InvalidMtu);
        }
        let build = |index: usize| -> (iface: IfaceState<D>)
            requires
                hardware_addr.used_on() == Medium::Ethernet ==> caps.max_transmission_unit
                    >= ETHERNET_HEADER_LEN,
            ensures
                iface@ == IfaceView::added(
                    IfaceHandle { index },
                    caps,
                    hardware_addr,
                ),
                iface@.wf(),
                iface.driver == driver,
            { IfaceState::new(IfaceHandle::new(index), driver, caps, hardware_addr) };
        let ghost before = self@;
        match self.ifaces.add_with(build) {
            Ok(index) => {
                let handle = IfaceHandle::new(index);
                assert(self@.ifaces =~= before.ifaces.insert(
                    index as int,
                    IfaceView::added(handle, caps, hardware_addr),
                ));
                Ok(handle)
            },
            Err(_) => Err(AddIfaceError::Full),
        }
    }

    /// Add an interface for a driver, with the capabilities and the hardware
    /// address that the driver reports.
    pub fn add_iface(&mut self, driver: D) -> (result: Result<IfaceHandle, AddIfaceError>)
        requires
            old(self).wf(),
        ensures
            final(self).wf(),
            match result {
                Ok(handle) => {
                    let added = final(self)@.ifaces[handle.index as int];
                    &&& iface_error(added.caps, added.hardware_addr) is None
                    &&& old(self).ifaces.first_free(handle.index as int)
                    &&& added == IfaceView::added(
                        handle,
                        added.caps,
                        added.hardware_addr,
                        )
                    &&& final(self)@ == (StackView {
                        ifaces: old(self)@.ifaces.insert(handle.index as int, added),
                        ..old(self)@
                    })
                    &&& final(self).ifaces@[handle.index as int].driver == driver
                },
                Err(error) => {
                    &&& error == AddIfaceError::Full ==> old(self).ifaces.spec_full()
                    &&& final(self)@ == old(self)@
                },
            },
    {
        let caps = driver.capabilities();
        let hardware_addr = driver.hardware_address();
        self.add_iface_with(driver, caps, hardware_addr)
    }
}

} // verus!

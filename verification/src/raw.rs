//! Raw sockets.
//!
//! A raw socket sends and receives whole packets, headers included.
//!
//! Raw sockets can be bound in two modes:
//!
//! - **Ethernet mode** ([`RawMode::Ethernet`]): whole Ethernet frames, optionally
//!   filtered by ethertype.
//! - **IP mode** ([`RawMode::Ip`]): whole IP packets on all interfaces. The socket
//!   may be bound to an IP version and/or an IP protocol, both optional.

use crate::config::{PACKET_BUF_DRIVER_HEADROOM, PACKET_BUF_SIZE, RAW_RX_QUEUE_COUNT};
use crate::driver::{Driver, Packet, PacketBuf, PacketMeta, PacketPool};
use crate::iface::{IfaceBinding, IfaceHandle, Medium};
use crate::stack::{is_ethernet, Stack, StackView, TxContext, TxView};
use crate::storage::slab::{
    first_slot, is_next_slot, lemma_first_slot, lemma_no_first_slot, no_next_slot,
};
use crate::storage::BoundedDeque;
use crate::waker::{WakerRegistration, WakerView};
use crate::wire::bytes::{copy_to_front, zeros};
use crate::wire::ethernet::{frame_ethertype, parse_ethertype};
use crate::wire::ip_packet::{ip_headers, parse_ip_headers};
use crate::wire::{EthernetProtocol, IpProtocol, IpVersion, LINK_HEADER_LEN};
use core::task::Waker;
use vstd::prelude::*;

verus! {

/// A handle to a raw socket added to a [`Stack`](crate::stack::Stack).
#[derive(Clone, Copy, PartialEq, Eq, Structural, Debug)]
pub struct RawHandle {
    pub index: usize,
}

impl RawHandle {
    /// The handle of the raw socket at `index`.
    pub fn new(index: usize) -> (handle: RawHandle)
        ensures
            handle.index == index,
    {
        RawHandle { index }
    }

    /// Where the raw socket is.
    pub fn index(self) -> (index: usize)
        ensures
            index == self.index,
    {
        self.index
    }
}

/// The mode of a raw socket, set by [`RawSocket::bind`].
#[derive(Clone, Copy, PartialEq, Eq, Structural, Debug)]
pub enum RawMode {
    /// Send and receive whole Ethernet frames.
    ///
    /// The socket receives frames from every Ethernet-medium interface and
    /// sends out of the first one, unless it is bound to one interface with
    /// [`bind_to_iface`](RawSocket::bind_to_iface).
    Ethernet {
        /// If set, only frames with this ethertype are received, and only frames
        /// with this ethertype may be sent.
        ethertype: Option<EthernetProtocol>,
    },
    /// Send and receive whole IP packets, on all interfaces, or on the one
    /// bound with [`bind_to_iface`](RawSocket::bind_to_iface).
    Ip {
        /// If set, only packets of this IP version are received, and only packets
        /// of this version may be sent.
        version: Option<IpVersion>,
        /// If set, only packets with this IP protocol are received, and only
        /// packets with this protocol may be sent.
        protocol: Option<IpProtocol>,
    },
}

/// Error returned by [`RawSocket::bind`].
#[derive(Clone, Copy, PartialEq, Eq, Structural, Debug)]
pub enum BindError {
    /// The socket is already bound.
    InvalidState,
    /// An Ethernet-mode bind on a socket bound to an interface whose medium is
    /// not [`Medium::Ethernet`].
    InvalidMedium,
}

impl BindError {
    /// What went wrong, in words.
    pub fn description(&self) -> (text: &'static str)
        ensures
            text@ == (match *self {
                BindError::InvalidState => "invalid state"@,
                BindError::InvalidMedium => "invalid medium"@,
            }),
    {
        match self {
            BindError::InvalidState => "invalid state",
            BindError::InvalidMedium => "invalid medium",
        }
    }
}

/// Error returned by [`RawSocket::send_slice`] and [`RawSocket::send_with`].
#[derive(Clone, Copy, PartialEq, Eq, Structural, Debug)]
pub enum SendError {
    /// The socket is not bound.
    InvalidState,
    /// There is no route to the packet's destination (IP mode), or no Ethernet
    /// interface to send on (Ethernet mode).
    Unaddressable,
    /// The packet does not fit in a packet buffer.
    BufferFull,
    /// No packet buffer is free.
    ///
    /// Retry later. Note the socket's send waker is **not** woken when a buffer is freed.
    NoBuffer,
    /// The interface the packet would go out of has no room for it right now.
    ///
    /// Retry once it has room. The socket's send waker is woken when room becomes
    /// available.
    DeviceBusy,
    /// The packet fails basic validation (too short for an Ethernet header in
    /// Ethernet mode, malformed IP header in IP mode), or does not match the
    /// socket's bind filters.
    Malformed,
}

impl SendError {
    /// What went wrong, in words.
    pub fn description(&self) -> (text: &'static str)
        ensures
            text@ == (match *self {
                SendError::InvalidState => "invalid state"@,
                SendError::Unaddressable => "unaddressable"@,
                SendError::BufferFull => "buffer full"@,
                SendError::NoBuffer => "no buffer"@,
                SendError::DeviceBusy => "device busy"@,
                SendError::Malformed => "malformed"@,
            }),
    {
        match self {
            SendError::InvalidState => "invalid state",
            SendError::Unaddressable => "unaddressable",
            SendError::BufferFull => "buffer full",
            SendError::NoBuffer => "no buffer",
            SendError::DeviceBusy => "device busy",
            SendError::Malformed => "malformed",
        }
    }
}

/// Error returned by [`RawSocket::recv`] and the peek methods.
#[derive(Clone, Copy, PartialEq, Eq, Structural, Debug)]
pub enum RecvError {
    /// The socket is not bound.
    InvalidState,
    /// The RX queue is empty.
    Exhausted,
    /// The provided slice is smaller than the packet. (The packet is dropped by
    /// `recv_slice`, but not by `peek_slice`.)
    Truncated,
}

impl RecvError {
    /// What went wrong, in words.
    pub fn description(&self) -> (text: &'static str)
        ensures
            text@ == (match *self {
                RecvError::InvalidState => "invalid state"@,
                RecvError::Exhausted => "exhausted"@,
                RecvError::Truncated => "truncated"@,
            }),
    {
        match self {
            RecvError::InvalidState => "invalid state",
            RecvError::Exhausted => "exhausted",
            RecvError::Truncated => "truncated",
        }
    }
}

/// Raw socket state, stored inside the stack.
pub struct RawSocketState {
    pub mode: Option<RawMode>,
    /// The interface the socket is bound to.
    pub binding: IfaceBinding,
    pub rx_queue: BoundedDeque<PacketBuf, RAW_RX_QUEUE_COUNT>,
    pub rx_waker: WakerRegistration,
    pub tx_waker: WakerRegistration,
    /// The interface the last send found busy. `tx_waker` is to be woken once it
    /// has room.
    pub tx_blocked_on: Option<IfaceHandle>,
}

/// The state of a raw socket.
#[verifier::ext_equal]
pub struct RawView {
    pub mode: Option<RawMode>,
    pub binding: IfaceBinding,
    pub rx_queue: Seq<Packet>,
    pub rx_waker: WakerView,
    pub tx_waker: WakerView,
    pub tx_blocked_on: Option<IfaceHandle>,
}

/// The packets in a list of buffers.
pub open spec fn packets_in(buffers: Seq<PacketBuf>) -> Seq<Packet> {
    buffers.map_values(|buf: PacketBuf| buf@)
}

impl View for RawSocketState {
    type V = RawView;

    open spec fn view(&self) -> RawView {
        RawView {
            mode: self.mode,
            binding: self.binding,
            rx_queue: packets_in(self.rx_queue@),
            rx_waker: self.rx_waker@,
            tx_waker: self.tx_waker@,
            tx_blocked_on: self.tx_blocked_on,
        }
    }
}

impl RawView {
    /// A socket that is not bound holds no packets, and no socket holds more than
    /// fit in the queue.
    pub open spec fn wf(self) -> bool {
        &&& self.mode is None ==> self.rx_queue.len() == 0
        &&& self.rx_queue.len() <= RAW_RX_QUEUE_COUNT
    }

    /// An unbound socket.
    pub open spec fn unbound() -> RawView {
        RawView {
            mode: None,
            binding: IfaceBinding::Any,
            rx_queue: Seq::empty(),
            rx_waker: WakerView::unused(),
            tx_waker: WakerView::unused(),
            tx_blocked_on: None,
        }
    }

    /// Whether there is room for one more packet in the queue.
    pub open spec fn has_room(self) -> bool {
        self.rx_queue.len() < RAW_RX_QUEUE_COUNT
    }

    /// A packet arrived. It is dropped if the queue is full.
    pub open spec fn enqueued(self, packet: Packet) -> RawView {
        if self.has_room() {
            RawView {
                rx_queue: self.rx_queue.push(packet),
                rx_waker: self.rx_waker.fired(),
                ..self
            }
        } else {
            self
        }
    }

    /// The socket was closed.
    pub open spec fn closed(self) -> RawView {
        RawView {
            mode: None,
            rx_queue: Seq::empty(),
            rx_waker: self.rx_waker.fired(),
            tx_waker: self.tx_waker.fired(),
            tx_blocked_on: None,
            ..self
        }
    }
}

impl RawSocketState {
    /// Create an unbound raw socket.
    pub fn new() -> (state: RawSocketState)
        ensures
            state@ == RawView::unbound(),
            state@.wf(),
    {
        let state = RawSocketState {
            mode: None,
            binding: IfaceBinding::Any,
            rx_queue: BoundedDeque::new(),
            rx_waker: WakerRegistration::new(),
            tx_waker: WakerRegistration::new(),
            tx_blocked_on: None,
        };
        assert(state@.rx_queue =~= Seq::empty());
        state
    }

    /// Queue an ingress packet. `buf` must be a whole Ethernet frame or IP packet,
    /// headers included, matching the socket's mode. Returns whether there was room for
    /// it.
    pub fn rx_enqueue(&mut self, buf: PacketBuf) -> (queued: bool)
        ensures
            final(self)@ == old(self)@.enqueued(buf@),
            queued == old(self)@.has_room(),
    {
        if self.rx_queue.push_back(buf).is_err() {
            return false;
        }
        assert(self@.rx_queue =~= old(self)@.rx_queue.push(buf@));
        self.rx_waker.wake();
        true
    }
}

/// Copy a packet into a freshly allocated buffer. Used when both a raw socket and
/// the stack's own protocol handlers want an ingress packet. `None` if the pool
/// is empty: the socket misses the packet, the stack still processes it.
pub fn copy_packet(pool: &PacketPool, buf: &PacketBuf) -> (copy: Option<PacketBuf>)
    requires
        buf.wf(),
    ensures
        copy matches Some(copy) ==> copy@ == buf@ && copy.wf(),
{
    fill_copy(PacketBuf::try_new(pool), buf)
}

/// Copy a packet into an empty buffer, if there is one. The copy is the same packet:
/// it carries the same metadata (arrival timestamp, driver-assigned id).
pub fn fill_copy(copy: Option<PacketBuf>, buf: &PacketBuf) -> (filled: Option<PacketBuf>)
    requires
        copy matches Some(copy) ==> copy.fresh(),
        buf.wf(),
    ensures
        filled is Some <==> copy is Some,
        filled matches Some(filled) ==> filled@ == buf@ && filled.wf(),
{
    match copy {
        Some(copy) => {
            let mut copy = copy;
            copy.append(buf.as_slice());
            copy.set_meta(buf.meta());
            assert(copy@.bytes =~= buf@.bytes);
            Some(copy)
        },
        None => None,
    }
}

/// Whether a socket takes frames of this ethertype from this interface.
pub open spec fn takes_frame(iface: IfaceHandle, ethertype: EthernetProtocol) -> spec_fn(
    RawView,
) -> bool {
    |socket: RawView|
        {
            &&& socket.mode matches Some(RawMode::Ethernet { ethertype: bound })
            &&& bound matches Some(bound) ==> bound == ethertype
            &&& socket.binding.admits(iface)
        }
}

/// Whether a socket takes packets of this version and protocol from this
/// interface.
pub open spec fn takes_packet(
    iface: IfaceHandle,
    version: IpVersion,
    protocol: IpProtocol,
) -> spec_fn(RawView) -> bool {
    |socket: RawView|
        {
            &&& socket.mode matches Some(
                RawMode::Ip { version: bound_version, protocol: bound_protocol },
            )
            &&& bound_version matches Some(bound) ==> bound == version
            &&& bound_protocol matches Some(bound) ==> bound == protocol
            &&& socket.binding.admits(iface)
        }
}

impl RawSocketState {
    /// Whether the socket takes frames of this ethertype from this interface.
    pub fn wants_frame(&self, iface: IfaceHandle, ethertype: EthernetProtocol) -> (r: bool)
        ensures
            r == takes_frame(iface, ethertype)(self@),
    {
        match self.mode {
            Some(RawMode::Ethernet { ethertype: bound }) => {
                let fits: bool = match bound {
                    Some(bound) => bound == ethertype,
                    None => true,
                };
                fits && self.binding.matches(iface)
            },
            _ => false,
        }
    }

    /// Whether the socket takes packets of this version and protocol from this
    /// interface.
    pub fn wants_packet(&self, iface: IfaceHandle, version: IpVersion, protocol: IpProtocol) -> (r:
        bool)
        ensures
            r == takes_packet(iface, version, protocol)(self@),
    {
        match self.mode {
            Some(RawMode::Ip { version: bound_version, protocol: bound_protocol }) => {
                let version_fits: bool = match bound_version {
                    Some(bound) => bound == version,
                    None => true,
                };
                let protocol_fits: bool = match bound_protocol {
                    Some(bound) => bound == protocol,
                    None => true,
                };
                version_fits && protocol_fits && self.binding.matches(iface)
            },
            _ => false,
        }
    }
}

/// A raw socket borrowed from a [`Stack`](crate::stack::Stack), returned by
/// [`Stack::raw_socket`](crate::stack::Stack::raw_socket).
pub struct RawSocket<'a, D> {
    pub state: &'a mut RawSocketState,
    pub tx: TxContext<'a, D>,
}

/// What comes of sending a packet.
pub struct Sending {
    /// What the sender is told.
    pub result: Result<(), SendError>,
    /// The interfaces and what they share.
    pub tx: TxView,
    /// The interface that was found busy.
    pub busy: Option<IfaceHandle>,
}

impl Sending {
    /// The packet was refused.
    pub open spec fn refused(tx: TxView, error: SendError) -> Sending {
        Sending { result: Err(error), tx, busy: None }
    }

    /// The packet was sent.
    pub open spec fn done(tx: TxView) -> Sending {
        Sending { result: Ok(()), tx, busy: None }
    }

    /// The interface was busy.
    pub open spec fn blocked(tx: TxView, iface: IfaceHandle) -> Sending {
        Sending { result: Err(SendError::DeviceBusy), tx, busy: Some(iface) }
    }

    /// What the socket remembers.
    pub open spec fn socket(self, before: RawView) -> RawView {
        match self.busy {
            Some(iface) => RawView { tx_blocked_on: Some(iface), ..before },
            None => before,
        }
    }
}

/// What comes of sending a frame out of an Ethernet interface that has room.
pub open spec fn sending_frame(
    tx: TxView,
    iface: IfaceHandle,
    ethertype: Option<EthernetProtocol>,
    packet: Packet,
) -> Sending {
    match frame_ethertype(packet.bytes) {
        Some(actual) => if ethertype is Some && ethertype->0 != actual {
            Sending::refused(tx, SendError::Malformed)
        } else {
            Sending::done(tx.transmitted(iface.index as int, packet))
        },
        None => Sending::refused(tx, SendError::Malformed),
    }
}

/// What comes of sending an IP packet. `room` is what the interface it would go out
/// of answers when it is asked for room.
pub open spec fn sending_ip(
    tx: TxView,
    binding: IfaceBinding,
    version: Option<IpVersion>,
    protocol: Option<IpProtocol>,
    packet: Packet,
    room: bool,
) -> Sending {
    match ip_headers(packet.bytes) {
        None => Sending::refused(tx, SendError::Malformed),
        Some((dst, next_header)) => if (version is Some && version->0 != dst.of_version()) || (
        protocol is Some && protocol->0 != next_header) {
            Sending::refused(tx, SendError::Malformed)
        } else if dst.is_any() {
            // The unspecified address is never a destination (RFC 1122 section
            // 3.2.1.3, RFC 4291 section 2.5.2).
            Sending::refused(tx, SendError::Unaddressable)
        } else {
            match tx.route_to(binding, dst) {
                None => Sending::refused(tx, SendError::Unaddressable),
                Some(route) => {
                    let index = route.iface.index as int;
                    let asked = tx.asked(index, room);
                    if room {
                        Sending::done(asked.sent_ip(route, packet))
                    } else {
                        Sending::blocked(asked, route.iface)
                    }
                },
            }
        },
    }
}

/// Whether the interface an IP packet would go out of can answer so when it is
/// asked for room.
pub open spec fn can_answer_ip(
    tx: TxView,
    binding: IfaceBinding,
    packet: Packet,
    room: bool,
) -> bool {
    match ip_headers(packet.bytes) {
        Some((dst, _)) => match tx.route_to(binding, dst) {
            Some(route) => tx.can_answer(route.iface.index as int, room),
            None => true,
        },
        None => true,
    }
}

/// The interface an Ethernet-mode socket sends out of: the one it is bound to, else
/// the first Ethernet interface.
pub open spec fn frame_iface(tx: TxView, binding: IfaceBinding) -> Option<IfaceHandle> {
    match binding {
        IfaceBinding::Iface(iface) => Some(iface),
        IfaceBinding::Any => match first_slot(tx.ifaces, is_ethernet()) {
            Some(index) => Some(IfaceHandle { index: index as usize }),
            None => None,
        },
    }
}

/// How much of a packet buffer is set aside for a link-layer header: IP packets
/// get one prepended on mediums that have it, frames go out as they are.
pub open spec fn mode_headroom(mode: RawMode) -> int {
    match mode {
        RawMode::Ethernet { .. } => 0,
        RawMode::Ip { .. } => LINK_HEADER_LEN as int,
    }
}

/// Whether a packet of up to `max_size` bytes fits in a packet buffer.
pub open spec fn packet_fits(mode: RawMode, max_size: usize) -> bool {
    max_size <= PACKET_BUF_SIZE - mode_headroom(mode)
}

/// Whether a send came out as `sending` says.
pub open spec fn sent_as(
    sending: Sending,
    before: RawView,
    after: RawView,
    tx: TxView,
    result: Result<(), SendError>,
) -> bool {
    &&& result == sending.result
    &&& tx == sending.tx
    &&& after == sending.socket(before)
}

/// Whether a send of a packet that is ready came out right: in Ethernet mode out of
/// `iface`, in IP mode along a route.
pub open spec fn packet_sent(
    mode: RawMode,
    iface: Option<IfaceHandle>,
    before: RawView,
    tx_before: TxView,
    packet: Packet,
    after: RawView,
    tx: TxView,
    result: Result<(), SendError>,
) -> bool {
    match mode {
        RawMode::Ethernet { ethertype } => sent_as(
            sending_frame(tx_before, iface->0, ethertype, packet),
            before,
            after,
            tx,
            result,
        ),
        RawMode::Ip { version, protocol } => exists|room: bool|
            #![trigger can_answer_ip(tx_before, before.binding, packet, room)]
            can_answer_ip(tx_before, before.binding, packet, room) && sent_as(
                sending_ip(tx_before, before.binding, version, protocol, packet, room),
                before,
                after,
                tx,
                result,
            ),
    }
}

/// Whether a send that ended for want of a buffer, or of a large enough one, came out
/// right.
pub open spec fn not_built(
    mode: RawMode,
    max_size: usize,
    has_buf: bool,
    before: RawView,
    after: RawView,
    result: Result<(), SendError>,
) -> bool {
    &&& after == before
    &&& if !has_buf {
        result == Err::<(), SendError>(SendError::NoBuffer)
    } else {
        !packet_fits(mode, max_size) && result == Err::<(), SendError>(SendError::BufferFull)
    }
}

/// Whether a send that ended before the packet was built came out right: the socket
/// is not bound, there is no Ethernet interface to send on or it is busy, or there
/// is no packet buffer or none that is large enough.
pub open spec fn send_ended_early(
    before: RawView,
    tx_before: TxView,
    max_size: usize,
    after: RawView,
    tx: TxView,
    result: Result<(), SendError>,
) -> bool {
    match before.mode {
        None => sent_as(
            Sending::refused(tx_before, SendError::InvalidState),
            before,
            after,
            tx,
            result,
        ),
        Some(RawMode::Ethernet { ethertype }) => match frame_iface(tx_before, before.binding) {
            None => sent_as(
                Sending::refused(tx_before, SendError::Unaddressable),
                before,
                after,
                tx,
                result,
            ),
            Some(iface) => {
                let index = iface.index as int;
                ||| tx_before.can_answer(index, false) && sent_as(
                    Sending::blocked(tx_before.asked(index, false), iface),
                    before,
                    after,
                    tx,
                    result,
                )
                ||| tx_before.can_answer(index, true) && tx == tx_before.asked(index, true)
                    && exists|has_buf: bool| #[trigger]
                    not_built(
                        RawMode::Ethernet { ethertype },
                        max_size,
                        has_buf,
                        before,
                        after,
                        result,
                    )
            },
        },
        Some(RawMode::Ip { version, protocol }) => tx == tx_before && exists|has_buf: bool|
            #[trigger]
            not_built(
                RawMode::Ip { version, protocol },
                max_size,
                has_buf,
                before,
                after,
                result,
            ),
    }
}

/// Whether a send of a packet of up to `max_size` bytes that was built came out
/// right. An Ethernet interface was asked for room before.
pub open spec fn send_went_through(
    before: RawView,
    tx_before: TxView,
    max_size: usize,
    packet: Packet,
    after: RawView,
    tx: TxView,
    result: Result<(), SendError>,
) -> bool {
    match before.mode {
        None => false,
        Some(RawMode::Ethernet { ethertype }) => {
            let mode = RawMode::Ethernet { ethertype };
            let iface = frame_iface(tx_before, before.binding);
            &&& packet_fits(mode, max_size)
            &&& iface is Some
            &&& tx_before.can_answer(iface->0.index as int, true)
            &&& packet_sent(
                mode,
                iface,
                before,
                tx_before.asked(iface->0.index as int, true),
                packet,
                after,
                tx,
                result,
            )
        },
        Some(RawMode::Ip { version, protocol }) => {
            let mode = RawMode::Ip { version, protocol };
            &&& packet_fits(mode, max_size)
            &&& packet_sent(mode, None, before, tx_before, packet, after, tx, result)
        },
    }
}

impl<'a, D> RawSocket<'a, D> {
    /// The socket, the interfaces and what they share are in order, and the
    /// interface the socket is bound to is there.
    pub open spec fn wf(&self) -> bool {
        &&& self.socket().wf()
        &&& self.tx.wf()
        &&& self.iface_is_there()
    }

    /// The interface the socket is bound to, if any, is there.
    pub open spec fn iface_is_there(&self) -> bool {
        self.socket().binding matches IfaceBinding::Iface(iface)
            ==> self.tx.ifaces@.contains_key(iface.index as int)
    }

    /// The state of the socket.
    pub open spec fn socket(&self) -> RawView {
        self.state@
    }

    /// Whether only the socket changed.
    pub open spec fn keeps_tx(&self, before: &Self) -> bool {
        *self.tx.inner == *before.tx.inner && *self.tx.ifaces == *before.tx.ifaces
    }

    /// Return the mode the socket is bound to, or `None` if it is unbound.
    pub fn mode(&self) -> (mode: Option<RawMode>)
        ensures
            mode == self.socket().mode,
    {
        self.state.mode
    }

    /// Bind the socket to an interface, or unbind it with `None`.
    ///
    /// A socket bound to an interface only sends and receives packets on it:
    /// - Destinations must be on-link on that iface, or have a route through it.
    /// - Broadcast and multicast destinations go out on that iface only
    ///
    /// In Ethernet mode the bound interface's medium must be
    /// [`Medium::Ethernet`], checked at [`bind`](Self::bind).
    ///
    /// The socket must be unbound (no mode set). The binding is kept across
    /// [`close`](Self::close).
    ///
    /// # Errors
    /// - `InvalidState`: if the socket is bound.
    pub fn bind_to_iface(&mut self, iface: Option<IfaceHandle>) -> (result: Result<(), BindError>)
        ensures
            old(self).socket().mode is Some ==> {
                &&& result == Err::<(), BindError>(BindError::InvalidState)
                &&& final(self).socket() == old(self).socket()
            },
            old(self).socket().mode is None ==> {
                &&& result is Ok
                &&& final(self).socket() == (RawView {
                    binding: IfaceBinding::of(iface),
                    ..old(self).socket()
                })
            },
            final(self).keeps_tx(old(self)),
            *final(final(self).state) == *final(old(self).state),
            *final(final(self).tx.inner) == *final(old(self).tx.inner),
            *final(final(self).tx.ifaces) == *final(old(self).tx.ifaces),
    {
        if self.is_open() {
            return Err(BindError::InvalidState);
        }
        self.state.binding = IfaceBinding::from_iface(iface);
        Ok(())
    }

    /// Return the interface the socket is bound to, or `None`.
    ///
    /// See [`bind_to_iface`](Self::bind_to_iface).
    pub fn bound_iface(&self) -> (iface: Option<IfaceHandle>)
        ensures
            iface == self.socket().binding.bound(),
    {
        self.state.binding.iface()
    }

    /// Bind the socket to the given mode. For an Ethernet-mode bind, the interface it
    /// is bound to, if any, has to be there.
    ///
    /// # Errors
    /// - `InvalidState`: if the socket is already bound (see
    ///   [is_open](#method.is_open)).
    /// - `InvalidMedium`: if an Ethernet-mode bind is made on a socket bound
    ///   (with `bind_to_iface`) to an interface whose medium is not
    ///   [`Medium::Ethernet`].
    pub fn bind(&mut self, mode: RawMode) -> (result: Result<(), BindError>)
        requires
            old(self).tx.wf(),
            old(self).socket().mode is None && mode is Ethernet ==> old(self).iface_is_there(),
        ensures
            old(self).wf() ==> final(self).wf(),
            ({
                let before = old(self).socket();
                let wrong_medium = mode is Ethernet && (before.binding matches IfaceBinding::Iface(
                    iface,
                ) && old(self).tx@.ifaces[iface.index as int].medium != Medium::Ethernet);
                if before.mode is Some {
                    &&& result == Err::<(), BindError>(BindError::InvalidState)
                    &&& final(self).socket() == before
                } else if wrong_medium {
                    &&& result == Err::<(), BindError>(BindError::InvalidMedium)
                    &&& final(self).socket() == before
                } else {
                    &&& result is Ok
                    &&& final(self).socket() == (RawView {
                        mode: Some(mode),
                        rx_waker: before.rx_waker.fired(),
                        tx_waker: before.tx_waker.fired(),
                        ..before
                    })
                }
            }),
            final(self).keeps_tx(old(self)),
            *final(final(self).state) == *final(old(self).state),
            *final(final(self).tx.inner) == *final(old(self).tx.inner),
            *final(final(self).tx.ifaces) == *final(old(self).tx.ifaces),
    {
        if self.is_open() {
            return Err(BindError::InvalidState);
        }
        if let RawMode::Ethernet { .. } = mode {
            if let Some(iface) = self.state.binding.iface() {
                if self.tx.ifaces.get(iface.index()).medium() != Medium::Ethernet {
                    return Err(BindError::InvalidMedium);
                }
            }
        }
        self.state.mode = Some(mode);
        // Sends are possible now, and receives can start failing differently.
        self.state.rx_waker.wake();
        self.state.tx_waker.wake();
        Ok(())
    }

    /// Close the socket, unbinding it and dropping any queued packets.
    pub fn close(&mut self)
        ensures
            final(self).socket() == old(self).socket().closed(),
            final(self).socket().wf(),
            final(self).keeps_tx(old(self)),
            *final(final(self).state) == *final(old(self).state),
            *final(final(self).tx.inner) == *final(old(self).tx.inner),
            *final(final(self).tx.ifaces) == *final(old(self).tx.ifaces),
    {
        self.state.mode = None;
        self.state.rx_queue.clear();
        // Wake the tasks waiting, so they can notice the socket is closed.
        self.state.tx_blocked_on = None;
        self.state.rx_waker.wake();
        self.state.tx_waker.wake();
        assert(self.socket().rx_queue =~= Seq::empty());
    }

    /// Check whether the socket is open (bound to a mode).
    pub fn is_open(&self) -> (open: bool)
        ensures
            open == self.socket().mode is Some,
    {
        self.state.mode.is_some()
    }

    /// Register a waker for receive operations.
    ///
    /// The waker is woken on state changes that might affect the return value of
    /// `recv` calls, such as receiving a packet, or the socket closing.
    ///
    /// Notes:
    ///
    /// - Only one waker can be registered at a time. If another waker was previously
    ///   registered, it is overwritten and will no longer be woken.
    /// - The Waker is woken only once. Once woken, you must register it again before
    ///   incoming data may wake it again.
    /// - "Spurious wakes" are allowed: a wake doesn't guarantee the result of `recv`
    ///   has changed.
    pub fn register_recv_waker(&mut self, waker: &Waker)
        ensures
            final(self).socket() == (RawView {
                rx_waker: old(self).socket().rx_waker.registered(*waker),
                ..old(self).socket()
            }),
            final(self).keeps_tx(old(self)),
            *final(final(self).state) == *final(old(self).state),
            *final(final(self).tx.inner) == *final(old(self).tx.inner),
            *final(final(self).tx.ifaces) == *final(old(self).tx.ifaces),
    {
        self.state.rx_waker.register(waker);
    }

    /// Register a waker for send operations.
    ///
    /// The waker is woken on state changes that might affect the return value of
    /// `send` calls, such as:
    /// - the socket is bound or closed.
    /// - A send failed with [`SendError::DeviceBusy`] and the driver becomes no longer busy.
    ///
    /// It is not woken when a packet buffer is freed after
    /// [`SendError::NoBuffer`]. Retry that on your own.
    ///
    /// Notes:
    ///
    /// - Only one waker can be registered at a time. If another waker was previously
    ///   registered, it is overwritten and will no longer be woken.
    /// - The Waker is woken only once. Once woken, you must register it again before
    ///   it may be woken again.
    /// - "Spurious wakes" are allowed: a wake doesn't guarantee the result of `send`
    ///   has changed.
    pub fn register_send_waker(&mut self, waker: &Waker)
        ensures
            final(self).socket() == (RawView {
                tx_waker: old(self).socket().tx_waker.registered(*waker),
                ..old(self).socket()
            }),
            final(self).keeps_tx(old(self)),
            *final(final(self).state) == *final(old(self).state),
            *final(final(self).tx.inner) == *final(old(self).tx.inner),
            *final(final(self).tx.ifaces) == *final(old(self).tx.ifaces),
    {
        self.state.tx_waker.register(waker);
    }

    /// Check whether the RX queue is not empty.
    pub fn can_recv(&self) -> (r: bool)
        ensures
            r == (self.socket().rx_queue.len() > 0),
    {
        !self.state.rx_queue.is_empty()
    }

    /// Dequeue a received packet.
    ///
    /// The buffer holds the whole Ethernet frame (Ethernet mode) or IP packet (IP
    /// mode), headers included, exactly as received. This is zero-copy: the
    /// returned value is the buffer the packet arrived in, and dropping it frees it.
    ///
    /// # Errors
    /// - `InvalidState`: if the socket is not bound.
    /// - `Exhausted`: if the RX queue is empty.
    pub fn recv(&mut self) -> (result: Result<PacketBuf, RecvError>)
        ensures
            ({
                let before = old(self).socket();
                if before.mode is None {
                    &&& (result matches Err(e) && e == RecvError::InvalidState)
                    &&& final(self).socket() == before
                } else if before.rx_queue.len() == 0 {
                    &&& (result matches Err(e) && e == RecvError::Exhausted)
                    &&& final(self).socket() == before
                } else {
                    &&& (result matches Ok(buf) && buf@ == before.rx_queue[0])
                    &&& final(self).socket() == (RawView {
                        rx_queue: before.rx_queue.drop_first(),
                        ..before
                    })
                }
            }),
            final(self).keeps_tx(old(self)),
            *final(final(self).state) == *final(old(self).state),
            *final(final(self).tx.inner) == *final(old(self).tx.inner),
            *final(final(self).tx.ifaces) == *final(old(self).tx.ifaces),
    {
        if !self.is_open() {
            return Err(RecvError::InvalidState);
        }
        match self.state.rx_queue.pop_front() {
            Some(buf) => {
                assert(self.socket().rx_queue =~= old(self).socket().rx_queue.drop_first());
                Ok(buf)
            },
            None => Err(RecvError::Exhausted),
        }
    }

    /// Dequeue a received packet, copying it into the given slice, and return the
    /// number of octets copied.
    ///
    /// See also [recv](#method.recv).
    ///
    /// # Errors
    /// - `InvalidState`: if the socket is not bound.
    /// - `Exhausted`: if the RX queue is empty.
    /// - `Truncated`: if `data` is smaller than the packet. The packet is
    ///   dropped.
    pub fn recv_slice(&mut self, data: &mut [u8]) -> (result: Result<usize, RecvError>)
        ensures
            ({
                let before = old(self).socket();
                if before.mode is None {
                    &&& (result matches Err(e) && e == RecvError::InvalidState)
                    &&& final(self).socket() == before
                    &&& final(data)@ == old(data)@
                } else if before.rx_queue.len() == 0 {
                    &&& (result matches Err(e) && e == RecvError::Exhausted)
                    &&& final(self).socket() == before
                    &&& final(data)@ == old(data)@
                } else {
                    let bytes = before.rx_queue[0].bytes;
                    &&& final(self).socket() == (RawView {
                        rx_queue: before.rx_queue.drop_first(),
                        ..before
                    })
                    &&& if old(data)@.len() < bytes.len() {
                        &&& (result matches Err(e) && e == RecvError::Truncated)
                        &&& final(data)@ == old(data)@
                    } else {
                        &&& (result matches Ok(len) && len == bytes.len())
                        &&& final(data)@ == bytes + old(data)@.skip(bytes.len() as int)
                    }
                }
            }),
            final(self).keeps_tx(old(self)),
            *final(final(self).state) == *final(old(self).state),
            *final(final(self).tx.inner) == *final(old(self).tx.inner),
            *final(final(self).tx.ifaces) == *final(old(self).tx.ifaces),
    {
        let packet = match self.recv() {
            Ok(packet) => packet,
            Err(e) => {
                return Err(e);
            },
        };
        if data.len() < packet.len() {
            return Err(RecvError::Truncated);
        }
        copy_to_front(data, packet.as_slice());
        Ok(packet.len())
    }

    /// Peek at the next received packet without dequeueing it, as a borrow into the
    /// queue.
    ///
    /// # Errors
    /// - `InvalidState`: if the socket is not bound.
    /// - `Exhausted`: if the RX queue is empty.
    pub fn peek(&self) -> (result: Result<&[u8], RecvError>)
        ensures
            if self.socket().mode is None {
                result matches Err(e) && e == RecvError::InvalidState
            } else if self.socket().rx_queue.len() == 0 {
                result matches Err(e) && e == RecvError::Exhausted
            } else {
                result matches Ok(bytes) && bytes@ == self.socket().rx_queue[0].bytes
            },
    {
        if !self.is_open() {
            return Err(RecvError::InvalidState);
        }
        match self.state.rx_queue.front() {
            Some(buf) => Ok(buf.as_slice()),
            None => Err(RecvError::Exhausted),
        }
    }

    /// Peek at the next received packet without dequeueing it, copying it into the
    /// given slice.
    ///
    /// See also [peek](#method.peek).
    ///
    /// # Errors
    /// - `InvalidState`: if the socket is not bound.
    /// - `Exhausted`: if the RX queue is empty.
    /// - `Truncated`: if `data` is smaller than the packet. No data is copied
    ///   and the packet stays in the queue.
    pub fn peek_slice(&self, data: &mut [u8]) -> (result: Result<usize, RecvError>)
        ensures
            if self.socket().mode is None {
                (result matches Err(e) && e == RecvError::InvalidState) && final(data)@ == old(data)@
            } else if self.socket().rx_queue.len() == 0 {
                (result matches Err(e) && e == RecvError::Exhausted) && final(data)@ == old(data)@
            } else if old(data)@.len() < self.socket().rx_queue[0].bytes.len() {
                (result matches Err(e) && e == RecvError::Truncated) && final(data)@ == old(data)@
            } else {
                let bytes = self.socket().rx_queue[0].bytes;
                &&& (result matches Ok(len) && len == bytes.len())
                &&& final(data)@ == bytes + old(data)@.skip(bytes.len() as int)
            },
    {
        let packet = match self.peek() {
            Ok(packet) => packet,
            Err(e) => {
                return Err(e);
            },
        };
        if data.len() < packet.len() {
            return Err(RecvError::Truncated);
        }
        copy_to_front(data, packet);
        Ok(packet.len())
    }
}

/// Build a packet of up to `max_size` bytes in an empty buffer, with room for the
/// headers that a packet of this mode gets. `f` gets a slice of zeros and returns how
/// many bytes it wrote.
fn build_packet<F: FnOnce(&mut [u8]) -> usize>(
    buf: PacketBuf,
    mode: RawMode,
    max_size: usize,
    meta: PacketMeta,
    f: F,
) -> (built: PacketBuf)
    requires
        buf.fresh(),
        packet_fits(mode, max_size),
        forall|s: &mut [u8]| s@.len() == max_size ==> #[trigger] f.requires((s,)),
        forall|s: &mut [u8], k: usize|
            s@.len() == max_size && #[trigger] f.ensures((s,), k) ==> k <= max_size
                && final(s)@.len() == max_size,
    ensures
        built.wf(),
        built.room() == PACKET_BUF_DRIVER_HEADROOM + mode_headroom(mode),
        exists|s: &mut [u8], k: usize|
            {
                &&& #[trigger] f.ensures((s,), k)
                &&& s@ == zeros(max_size as int)
                &&& k <= final(s)@.len()
                &&& built@ == (Packet { bytes: final(s)@.take(k as int), meta })
            },
{
    // Ethernet frames go out as-is. IP packets get a link-layer header prepended on
    // mediums that have one, so they need headroom for it.
    let headroom: usize = match mode {
        RawMode::Ethernet { .. } => 0,
        RawMode::Ip { .. } => LINK_HEADER_LEN,
    };
    let mut buf = buf;
    buf.set_meta(meta);
    buf.reserve(PACKET_BUF_DRIVER_HEADROOM + headroom);
    buf.set_len(max_size);
    assert(buf@.bytes =~= zeros(max_size as int));
    let size: usize = f(buf.as_mut_slice());
    buf.set_len(size);
    buf
}

impl<'a, D: Driver> RawSocket<'a, D> {
    /// Send a packet that is ready: in Ethernet mode out of `eth_iface`, in IP mode
    /// along the route to its destination. An IP packet has room in front for the
    /// header of its link.
    pub fn send_packet(
        &mut self,
        mode: RawMode,
        eth_iface: Option<IfaceHandle>,
        buf: PacketBuf,
    ) -> (result: Result<(), SendError>)
        requires
            old(self).wf(),
            mode is Ethernet ==> (eth_iface matches Some(iface)
                && old(self).tx.ifaces@.contains_key(iface.index as int)),
            buf.wf(),
            buf.room() >= mode_headroom(mode),
        ensures
            final(self).wf(),
            packet_sent(
                mode,
                eth_iface,
                old(self).socket(),
                old(self).tx@,
                buf@,
                final(self).socket(),
                final(self).tx@,
                result,
            ),
            *final(final(self).state) == *final(old(self).state),
            *final(final(self).tx.inner) == *final(old(self).tx.inner),
            *final(final(self).tx.ifaces) == *final(old(self).tx.ifaces),
    {
        let ghost before = self.socket();
        let ghost tx_before = self.tx@;
        match mode {
            RawMode::Ethernet { ethertype } => {
                let actual = match parse_ethertype(buf.as_slice()) {
                    Some(actual) => actual,
                    None => {
                        return Err(SendError::Malformed);
                    },
                };
                if let Some(wanted) = ethertype {
                    if wanted != actual {
                        return Err(SendError::Malformed);
                    }
                }
                if let Some(iface) = eth_iface {
                    self.tx.transmit_ethernet(iface, buf);
                }
                Ok(())
            },
            RawMode::Ip { version, protocol } => {
                // Where the interface is not asked, any answer will do.
                assert(can_answer_ip(tx_before, before.binding, buf@, false));
                let (dst_addr, next_header) = match parse_ip_headers(buf.as_slice()) {
                    Some(headers) => headers,
                    None => {
                        return Err(SendError::Malformed);
                    },
                };
                let version_fits: bool = match version {
                    Some(wanted) => wanted == dst_addr.version(),
                    None => true,
                };
                let protocol_fits: bool = match protocol {
                    Some(wanted) => wanted == next_header,
                    None => true,
                };
                if !version_fits || !protocol_fits {
                    return Err(SendError::Malformed);
                }
                // The unspecified address is never a destination (RFC 1122
                // section 3.2.1.3, RFC 4291 section 2.5.2).
                if dst_addr.is_unspecified() {
                    return Err(SendError::Unaddressable);
                }
                let route = match self.tx.route(self.state.binding, &dst_addr) {
                    Some(route) => route,
                    None => {
                        return Err(SendError::Unaddressable);
                    },
                };
                let room: bool = self.tx.can_transmit(route.iface);
                assert(can_answer_ip(tx_before, before.binding, buf@, room));
                if !room {
                    // The socket is woken once the interface has room.
                    self.state.tx_blocked_on = Some(route.iface);
                    return Err(SendError::DeviceBusy);
                }
                self.tx.transmit_raw_ip(&route, buf);
                Ok(())
            },
        }
    }

    /// Find the interface an Ethernet-mode packet goes out of, and ask it for room.
    /// `None` in IP mode: the packet is routed once it is there.
    pub fn find_eth_iface(&mut self, mode: RawMode) -> (result: Result<
        Option<IfaceHandle>,
        SendError,
    >)
        requires
            old(self).wf(),
        ensures
            final(self).wf(),
            ({
                let before = old(self).socket();
                let iface = frame_iface(old(self).tx@, before.binding);
                match mode {
                    RawMode::Ip { .. } => {
                        &&& result == Ok::<Option<IfaceHandle>, SendError>(None)
                        &&& final(self).socket() == before
                        &&& final(self).tx@ == old(self).tx@
                    },
                    RawMode::Ethernet { .. } => match (iface, result) {
                        (None, result) => {
                            &&& result == Err::<Option<IfaceHandle>, SendError>(
                                SendError::Unaddressable,
                            )
                            &&& final(self).socket() == before
                            &&& final(self).tx@ == old(self).tx@
                        },
                        (Some(iface), Ok(chosen)) => {
                            &&& chosen == Some(iface)
                            &&& final(self).tx.ifaces@.contains_key(iface.index as int)
                            &&& old(self).tx@.can_answer(iface.index as int, true)
                            &&& final(self).socket() == before
                            &&& final(self).tx@ == old(self).tx@.asked(iface.index as int, true)
                        },
                        (Some(iface), Err(error)) => {
                            &&& error == SendError::DeviceBusy
                            &&& old(self).tx@.can_answer(iface.index as int, false)
                            &&& final(self).socket() == (RawView {
                                tx_blocked_on: Some(iface),
                                ..before
                            })
                            &&& final(self).tx@ == old(self).tx@.asked(iface.index as int, false)
                        },
                    },
                }
            }),
            *final(final(self).state) == *final(old(self).state),
            *final(final(self).tx.inner) == *final(old(self).tx.inner),
            *final(final(self).tx.ifaces) == *final(old(self).tx.ifaces),
    {
        if let RawMode::Ip { .. } = mode {
            return Ok(None);
        }
        let iface = match self.state.binding.iface() {
            Some(iface) => iface,
            None => match self.tx.first_ethernet_iface() {
                Some(iface) => iface,
                None => {
                    return Err(SendError::Unaddressable);
                },
            },
        };
        if !self.tx.can_transmit(iface) {
            // The socket is woken once the interface has room.
            self.state.tx_blocked_on = Some(iface);
            return Err(SendError::DeviceBusy);
        }
        Ok(Some(iface))
    }

    /// Send a packet of up to `max_size` bytes, building it in the buffer: in
    /// Ethernet mode out of `eth_iface`, in IP mode along the route to its
    /// destination.
    pub fn send_in<F: FnOnce(&mut [u8]) -> usize>(
        &mut self,
        buf: Option<PacketBuf>,
        mode: RawMode,
        eth_iface: Option<IfaceHandle>,
        max_size: usize,
        meta: PacketMeta,
        f: F,
    ) -> (result: Result<(), SendError>)
        requires
            old(self).wf(),
            mode is Ethernet ==> (eth_iface matches Some(iface)
                && old(self).tx.ifaces@.contains_key(iface.index as int)),
            buf matches Some(buf) ==> buf.fresh(),
            packet_fits(mode, max_size) ==> forall|s: &mut [u8]|
                s@.len() == max_size ==> #[trigger] f.requires((s,)),
            packet_fits(mode, max_size) ==> forall|s: &mut [u8], k: usize|
                s@.len() == max_size && #[trigger] f.ensures((s,), k) ==> k <= max_size
                    && final(s)@.len() == max_size,
        ensures
            final(self).wf(),
            if buf is None || !packet_fits(mode, max_size) {
                &&& not_built(
                    mode,
                    max_size,
                    buf is Some,
                    old(self).socket(),
                    final(self).socket(),
                    result,
                )
                &&& final(self).tx@ == old(self).tx@
            } else {
                exists|s: &mut [u8], k: usize|
                    {
                        &&& #[trigger] f.ensures((s,), k)
                        &&& s@ == zeros(max_size as int)
                        &&& k <= final(s)@.len()
                        &&& packet_sent(
                            mode,
                            eth_iface,
                            old(self).socket(),
                            old(self).tx@,
                            (Packet { bytes: final(s)@.take(k as int), meta }),
                            final(self).socket(),
                            final(self).tx@,
                            result,
                        )
                    }
            },
            *final(final(self).state) == *final(old(self).state),
            *final(final(self).tx.inner) == *final(old(self).tx.inner),
            *final(final(self).tx.ifaces) == *final(old(self).tx.ifaces),
    {
        let buf = match buf {
            Some(buf) => buf,
            None => {
                return Err(SendError::NoBuffer);
            },
        };
        let headroom: usize = match mode {
            RawMode::Ethernet { .. } => 0,
            RawMode::Ip { .. } => LINK_HEADER_LEN,
        };
        if max_size > buf.capacity() - headroom {
            return Err(SendError::BufferFull);
        }
        let packet = build_packet(buf, mode, max_size, meta, f);
        self.send_packet(mode, eth_iface, packet)
    }

    /// Send a packet with the given [`PacketMeta`] attached, building it in place.
    ///
    /// The metadata is handed to the driver along with the frame. This is how a
    /// packet is tagged with an id, or a transmit timestamp is requested for it.
    /// Everything else is exactly [`send_with`](Self::send_with).
    pub fn send_with_meta<F: FnOnce(&mut [u8]) -> usize>(
        &mut self,
        max_size: usize,
        meta: PacketMeta,
        f: F,
    ) -> (result: Result<(), SendError>)
        requires
            old(self).wf(),
            (old(self).socket().mode matches Some(mode) && packet_fits(mode, max_size))
                ==> forall|s: &mut [u8]| s@.len() == max_size ==> #[trigger] f.requires((s,)),
            (old(self).socket().mode matches Some(mode) && packet_fits(mode, max_size))
                ==> forall|s: &mut [u8], k: usize|
                s@.len() == max_size && #[trigger] f.ensures((s,), k) ==> k <= max_size
                    && final(s)@.len() == max_size,
        ensures
            final(self).wf(),
            ({
                ||| send_ended_early(
                    old(self).socket(),
                    old(self).tx@,
                    max_size,
                    final(self).socket(),
                    final(self).tx@,
                    result,
                )
                ||| exists|s: &mut [u8], k: usize|
                    {
                        &&& #[trigger] f.ensures((s,), k)
                        &&& s@ == zeros(max_size as int)
                        &&& k <= final(s)@.len()
                        &&& send_went_through(
                            old(self).socket(),
                            old(self).tx@,
                            max_size,
                            (Packet { bytes: final(s)@.take(k as int), meta }),
                            final(self).socket(),
                            final(self).tx@,
                            result,
                        )
                    }
            }),
            *final(final(self).state) == *final(old(self).state),
            *final(final(self).tx.inner) == *final(old(self).tx.inner),
            *final(final(self).tx.ifaces) == *final(old(self).tx.ifaces),
    {
        let mode = match self.state.mode {
            Some(mode) => mode,
            None => {
                return Err(SendError::InvalidState);
            },
        };
        // Ethernet frames carry no routing information: a bound socket sends on
        // its interface, an unbound one on the first Ethernet interface. The
        // interface is known up front, so ask it for room before building. An
        // IP-mode packet names its destination inside, so it is built first and
        // routed after.
        let eth_iface = match self.find_eth_iface(mode) {
            Ok(eth_iface) => eth_iface,
            Err(e) => {
                return Err(e);
            },
        };
        let buf = PacketBuf::try_new(&self.tx.inner.pool);
        self.send_in(buf, mode, eth_iface, max_size, meta, f)
    }

    /// Send a packet, building it in place.
    ///
    /// The closure gets a `max_size`-byte slice inside a freshly allocated packet
    /// buffer, and returns how many bytes it wrote. The packet is then sent
    /// immediately.
    ///
    /// The packet must be complete, headers included:
    ///
    /// - In Ethernet mode, a whole Ethernet frame (including header, not including FCS). It
    ///   is transmitted as-is, on the bound interface if the socket is bound to
    ///   one, else on the first Ethernet interface.
    /// - In IP mode, a whole IP packet, with checksum calculated. The destination
    ///   address is read from the IP header, and the packet is routed like any
    ///   other egress packet (through the bound interface only, if the socket is bound to one).
    ///
    /// The interface the socket is bound to, if any, has to be there.
    ///
    /// # Errors
    /// - `InvalidState`: if the socket is not bound.
    /// - `Unaddressable`: if there is no route to the
    ///   packet's destination or the destination is the unspecified address (IP
    ///   mode), or no Ethernet interface to send on (Ethernet mode).
    /// - `Malformed`: if the packet fails basic validation (too short for an
    ///   Ethernet header in Ethernet mode, malformed IP header in IP mode), or
    ///   does not match the socket's bind filters.
    /// - `BufferFull`: if the packet cannot fit in a packet buffer.
    /// - `NoBuffer`: if every packet buffer is in use.
    /// - `DeviceBusy`: if the interface the packet would go out of has no room
    ///   for it right now.
    pub fn send_with<F: FnOnce(&mut [u8]) -> usize>(&mut self, max_size: usize, f: F) -> (result:
        Result<(), SendError>)
        requires
            old(self).wf(),
            (old(self).socket().mode matches Some(mode) && packet_fits(mode, max_size))
                ==> forall|s: &mut [u8]| s@.len() == max_size ==> #[trigger] f.requires((s,)),
            (old(self).socket().mode matches Some(mode) && packet_fits(mode, max_size))
                ==> forall|s: &mut [u8], k: usize|
                s@.len() == max_size && #[trigger] f.ensures((s,), k) ==> k <= max_size
                    && final(s)@.len() == max_size,
        ensures
            final(self).wf(),
            ({
                ||| send_ended_early(
                    old(self).socket(),
                    old(self).tx@,
                    max_size,
                    final(self).socket(),
                    final(self).tx@,
                    result,
                )
                ||| exists|s: &mut [u8], k: usize|
                    {
                        &&& #[trigger] f.ensures((s,), k)
                        &&& s@ == zeros(max_size as int)
                        &&& k <= final(s)@.len()
                        &&& send_went_through(
                            old(self).socket(),
                            old(self).tx@,
                            max_size,
                            (Packet { bytes: final(s)@.take(k as int), meta: PacketMeta::plain() }),
                            final(self).socket(),
                            final(self).tx@,
                            result,
                        )
                    }
            }),
            *final(final(self).state) == *final(old(self).state),
            *final(final(self).tx.inner) == *final(old(self).tx.inner),
            *final(final(self).tx.ifaces) == *final(old(self).tx.ifaces),
    {
        self.send_with_meta(max_size, PacketMeta::default(), f)
    }

    /// Send a packet with the given [`PacketMeta`] attached, copying it from a slice.
    ///
    /// See [send_with_meta](#method.send_with_meta).
    pub fn send_slice_with_meta(&mut self, data: &[u8], meta: PacketMeta) -> (result: Result<
        (),
        SendError,
    >)
        requires
            old(self).wf(),
        ensures
            final(self).wf(),
            send_ended_early(
                old(self).socket(),
                old(self).tx@,
                data@.len() as usize,
                final(self).socket(),
                final(self).tx@,
                result,
            ) || send_went_through(
                old(self).socket(),
                old(self).tx@,
                data@.len() as usize,
                (Packet { bytes: data@, meta }),
                final(self).socket(),
                final(self).tx@,
                result,
            ),
            *final(final(self).state) == *final(old(self).state),
            *final(final(self).tx.inner) == *final(old(self).tx.inner),
            *final(final(self).tx.ifaces) == *final(old(self).tx.ifaces),
    {
        let len: usize = data.len();
        let fill = |buf: &mut [u8]| -> (n: usize)
            requires
                buf@.len() == len,
                len == data@.len(),
            ensures
                n == len,
                final(buf)@ == data@,
            {
                copy_to_front(buf, data);
                assert(buf@ =~= data@);
                len
            };
        let result = self.send_with_meta(len, meta, fill);
        assert(data@.take(len as int) =~= data@);
        result
    }

    /// Send a packet, copying it from a slice.
    ///
    /// See [send_with](#method.send_with).
    pub fn send_slice(&mut self, data: &[u8]) -> (result: Result<(), SendError>)
        requires
            old(self).wf(),
        ensures
            final(self).wf(),
            send_ended_early(
                old(self).socket(),
                old(self).tx@,
                data@.len() as usize,
                final(self).socket(),
                final(self).tx@,
                result,
            ) || send_went_through(
                old(self).socket(),
                old(self).tx@,
                data@.len() as usize,
                (Packet { bytes: data@, meta: PacketMeta::plain() }),
                final(self).socket(),
                final(self).tx@,
                result,
            ),
            *final(final(self).state) == *final(old(self).state),
            *final(final(self).tx.inner) == *final(old(self).tx.inner),
            *final(final(self).tx.ifaces) == *final(old(self).tx.ifaces),
    {
        self.send_slice_with_meta(data, PacketMeta::default())
    }
}

/// What becomes of a socket that takes an ingress packet. If the stack wants the
/// packet too, the socket gets a copy, if there is a buffer for one.
pub open spec fn delivered(socket: RawView, stack_wants: bool, has_copy: bool, packet: Packet) -> RawView {
    if stack_wants && !has_copy {
        socket
    } else {
        socket.enqueued(packet)
    }
}

impl RawSocketState {
    /// Take an ingress packet. If the stack wants it too, the socket gets the copy
    /// of it, if there is one, and the packet is handed back, with whether the copy was
    /// queued.
    pub fn deliver(&mut self, stack_wants: bool, copy: Option<PacketBuf>, buf: PacketBuf) -> (rest:
        Option<(PacketBuf, bool)>)
        requires
            copy matches Some(copy) ==> copy@ == buf@,
        ensures
            final(self)@ == delivered(old(self)@, stack_wants, copy is Some, buf@),
            rest == if stack_wants {
                Some((buf, copy is Some && old(self)@.has_room()))
            } else {
                None
            },
    {
        if stack_wants {
            let received: bool = match copy {
                Some(copy) => self.rx_enqueue(copy),
                None => false,
            };
            Some((buf, received))
        } else {
            self.rx_enqueue(buf);
            None
        }
    }
}

/// The raw sockets after a packet was offered to those that `takes` tells apart: the
/// first one that takes it gets it.
pub open spec fn offered(
    sockets: Map<int, RawView>,
    takes: spec_fn(RawView) -> bool,
    stack_wants: bool,
    has_copy: bool,
    packet: Packet,
) -> Map<int, RawView> {
    match first_slot(sockets, takes) {
        Some(i) => sockets.insert(i, delivered(sockets[i], stack_wants, has_copy, packet)),
        None => sockets,
    }
}

impl<D> Stack<D> {
    /// The first socket that takes frames of this ethertype from this interface.
    fn frame_taker(&self, iface: IfaceHandle, ethertype: EthernetProtocol) -> (index: Option<usize>)
        ensures
            match first_slot(self@.raw, takes_frame(iface, ethertype)) {
                Some(i) => index matches Some(index) && index == i && self@.raw.contains_key(i),
                None => index is None,
            },
    {
        let ghost p = takes_frame(iface, ethertype);
        let mut from: usize = 0;
        loop
            invariant
                p == takes_frame(iface, ethertype),
                forall|i: int|
                    0 <= i < from && #[trigger] self@.raw.contains_key(i) ==> !p(self@.raw[i]),
            decreases usize::MAX - from,
        {
            match self.sockets.raw.next_occupied(from) {
                Some(index) => {
                    if self.sockets.raw.get(index).wants_frame(iface, ethertype) {
                        proof {
                            lemma_first_slot(self@.raw, p, index as int);
                        }
                        return Some(index);
                    }
                    from = index + 1;
                },
                None => {
                    proof {
                        lemma_no_first_slot(self@.raw, p);
                    }
                    return None;
                },
            }
        }
    }

    /// The first socket that takes packets of this version and protocol from this
    /// interface.
    fn packet_taker(&self, iface: IfaceHandle, version: IpVersion, protocol: IpProtocol) -> (index:
        Option<usize>)
        ensures
            match first_slot(self@.raw, takes_packet(iface, version, protocol)) {
                Some(i) => index matches Some(index) && index == i && self@.raw.contains_key(i),
                None => index is None,
            },
    {
        let ghost p = takes_packet(iface, version, protocol);
        let mut from: usize = 0;
        loop
            invariant
                p == takes_packet(iface, version, protocol),
                forall|i: int|
                    0 <= i < from && #[trigger] self@.raw.contains_key(i) ==> !p(self@.raw[i]),
            decreases usize::MAX - from,
        {
            match self.sockets.raw.next_occupied(from) {
                Some(index) => {
                    if self.sockets.raw.get(index).wants_packet(iface, version, protocol) {
                        proof {
                            lemma_first_slot(self@.raw, p, index as int);
                        }
                        return Some(index);
                    }
                    from = index + 1;
                },
                None => {
                    proof {
                        lemma_no_first_slot(self@.raw, p);
                    }
                    return None;
                },
            }
        }
    }

    /// Offer an ingress Ethernet frame to the raw sockets. `buf` is the whole
    /// frame, Ethernet header included. `iface` is the interface it arrived on.
    ///
    /// The first Ethernet-mode socket whose interface binding and ethertype
    /// filter match receives it. If `stack_wants` is set (the stack itself
    /// processes this ethertype), the socket receives a copy and the packet itself is
    /// returned for further processing. Otherwise the socket takes the buffer
    /// zero-copy and `None` is returned.
    pub fn process_raw_ethernet(
        &mut self,
        iface: IfaceHandle,
        ethertype: EthernetProtocol,
        stack_wants: bool,
        buf: PacketBuf,
    ) -> (rest: Option<PacketBuf>)
        requires
            old(self).wf(),
            buf.wf(),
        ensures
            final(self).wf(),
            ({
                let takes = takes_frame(iface, ethertype);
                &&& rest == if stack_wants || first_slot(old(self)@.raw, takes) is None {
                    Some(buf)
                } else {
                    None
                }
                &&& exists|has_copy: bool|
                    final(self)@ == (StackView {
                        raw: #[trigger] offered(
                            old(self)@.raw,
                            takes,
                            stack_wants,
                            has_copy,
                            buf@,
                        ),
                        ..old(self)@
                    })
            }),
    {
        let ghost before = self@;
        let ghost takes = takes_frame(iface, ethertype);
        match self.frame_taker(iface, ethertype) {
            Some(index) => {
                let copy = if stack_wants {
                    copy_packet(&self.inner.pool, &buf)
                } else {
                    None
                };
                let ghost has_copy = copy is Some;
                let rest = self.sockets.raw.get_mut(index).deliver(stack_wants, copy, buf);
                assert(self@.raw =~= offered(before.raw, takes, stack_wants, has_copy, buf@));
                match rest {
                    Some((buf, _)) => Some(buf),
                    None => None,
                }
            },
            None => {
                assert(before.raw == offered(before.raw, takes, stack_wants, false, buf@));
                Some(buf)
            },
        }
    }

    /// Offer an ingress IP packet to the raw sockets. `buf` is the whole packet,
    /// IP header included, already trimmed of link-layer padding. `iface` is the
    /// interface it arrived on.
    ///
    /// The first socket whose interface/version/protocol filters match receives
    /// it. If `stack_wants` is set (the stack itself processes this protocol),
    /// the socket receives a copy and the packet itself is returned for further
    /// processing. Otherwise the socket takes the buffer zero-copy and `None` is
    /// returned.
    ///
    /// The returned flag records whether a socket received (a copy of) the packet.
    /// The stack suppresses its own error replies (ICMP port unreachable) for
    /// packets an application is handling through a raw socket.
    pub fn process_raw_ip(
        &mut self,
        iface: IfaceHandle,
        version: IpVersion,
        protocol: IpProtocol,
        stack_wants: bool,
        buf: PacketBuf,
    ) -> (rest: Option<(PacketBuf, bool)>)
        requires
            old(self).wf(),
            buf.wf(),
        ensures
            final(self).wf(),
            ({
                let takes = takes_packet(iface, version, protocol);
                exists|has_copy: bool|
                    {
                        &&& final(self)@ == (StackView {
                            raw: #[trigger] offered(
                                old(self)@.raw,
                                takes,
                                stack_wants,
                                has_copy,
                                buf@,
                            ),
                            ..old(self)@
                        })
                        &&& rest == match first_slot(old(self)@.raw, takes) {
                            None => Some((buf, false)),
                            Some(i) => if stack_wants {
                                Some((buf, has_copy && old(self)@.raw[i].has_room()))
                            } else {
                                None
                            },
                        }
                    }
            }),
    {
        let ghost before = self@;
        let ghost takes = takes_packet(iface, version, protocol);
        match self.packet_taker(iface, version, protocol) {
            Some(index) => {
                let copy = if stack_wants {
                    copy_packet(&self.inner.pool, &buf)
                } else {
                    None
                };
                let ghost has_copy = copy is Some;
                let rest = self.sockets.raw.get_mut(index).deliver(stack_wants, copy, buf);
                assert(self@.raw =~= offered(before.raw, takes, stack_wants, has_copy, buf@));
                rest
            },
            None => {
                assert(before.raw == offered(before.raw, takes, stack_wants, false, buf@));
                Some((buf, false))
            },
        }
    }
}

/// Goes through the raw sockets of a [`Stack`], returned by
/// [`Stack::raw_sockets`](crate::stack::Stack::raw_sockets).
///
/// Each item borrows the stack, so only one can exist at a time.
pub struct RawSocketIter<'a, D> {
    pub stack: &'a mut Stack<D>,
    pub next: usize,
}

impl<'a, D> RawSocketIter<'a, D> {
    /// Get the next raw socket, with its handle.
    ///
    /// Returns `None` when there are no more.
    pub fn next(&mut self) -> (item: Option<(RawHandle, RawSocket<'_, D>)>)
        requires
            old(self).stack.wf(),
        ensures
            match item {
                Some((handle, socket)) => {
                    &&& is_next_slot(
                        old(self).stack.sockets.raw@,
                        old(self).next as int,
                        handle.index as int,
                    )
                    &&& final(self).next == handle.index + 1
                    &&& socket.socket().wf()
                    &&& socket.tx.wf()
                    &&& *socket.state == old(self).stack.sockets.raw@[handle.index as int]
                    &&& *socket.tx.inner == old(self).stack.inner
                    &&& *socket.tx.ifaces == old(self).stack.ifaces
                    &&& final(self).stack.inner == *final(socket.tx.inner)
                    &&& final(self).stack.ifaces == *final(socket.tx.ifaces)
                    &&& final(self).stack.sockets.raw@ == old(self).stack.sockets.raw@.insert(
                        handle.index as int,
                        *final(socket.state),
                    )
                    &&& final(self).stack.sockets.tcp_listeners == old(self).stack.sockets.tcp_listeners
                },
                None => {
                    &&& no_next_slot(old(self).stack.sockets.raw@, old(self).next as int)
                    &&& *final(self).stack == *old(self).stack
                    &&& final(self).next == old(self).next
                },
            },
            *final(final(self).stack) == *final(old(self).stack),
    {
        match self.stack.sockets.raw.next_occupied(self.next) {
            Some(index) => {
                self.next = index + 1;
                let handle = RawHandle::new(index);
                Some((handle, self.stack.raw_socket(handle)))
            },
            None => None,
        }
    }
}

} // verus!

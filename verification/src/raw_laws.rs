//! What holds of raw sockets.

use crate::config::{PACKET_BUF_SIZE, RAW_RX_QUEUE_COUNT};
use crate::driver::{DriverCall, Packet};
use crate::iface::{IfaceBinding, IfaceHandle, Medium};
use crate::raw::{
    can_answer_ip, delivered, frame_iface, offered, packet_fits, send_ended_early,
    send_went_through, sending_frame, sending_ip, sent_as, takes_frame, takes_packet, RawMode,
    RawView, SendError,
};
use crate::route::{best_route, is_best_route};
use crate::stack::{is_admitted, is_ethernet, is_on_link, raw_sockets_wf, TxView};
use crate::storage::slab::{first_slot, lemma_first_slot_found, lemma_first_slot_known};
use crate::wire::ip_packet::ip_headers;
use crate::wire::{EthernetProtocol, IpAddress, IpProtocol, IpVersion};
use vstd::prelude::*;

verus! {

/// Packets are received in the order in which they arrived: a new one goes behind
/// those that wait.
pub proof fn packets_arrive_in_order(socket: RawView, packet: Packet)
    requires
        socket.rx_queue.len() < RAW_RX_QUEUE_COUNT,
    ensures
        socket.enqueued(packet).rx_queue.last() == packet,
        socket.enqueued(packet).rx_queue.drop_last() == socket.rx_queue,
{
    assert(socket.enqueued(packet).rx_queue.drop_last() =~= socket.rx_queue);
}

/// A packet that arrives while the queue is full is dropped, and nothing else.
pub proof fn full_queue_drops_the_newest(socket: RawView, packet: Packet)
    requires
        socket.wf(),
        socket.rx_queue.len() == RAW_RX_QUEUE_COUNT,
    ensures
        socket.enqueued(packet) == socket,
{
}

/// Offering a frame keeps every socket in order: in particular, a socket that is not
/// bound never holds a packet, and no socket more than fit.
pub proof fn offering_a_frame_keeps_sockets_wf(
    sockets: Map<int, RawView>,
    iface: IfaceHandle,
    ethertype: EthernetProtocol,
    stack_wants: bool,
    has_copy: bool,
    packet: Packet,
)
    requires
        raw_sockets_wf(sockets),
    ensures
        raw_sockets_wf(
            offered(sockets, takes_frame(iface, ethertype), stack_wants, has_copy, packet),
        ),
{
    lemma_first_slot_known(sockets, takes_frame(iface, ethertype));
}

/// Offering an IP packet keeps every socket in order.
pub proof fn offering_a_packet_keeps_sockets_wf(
    sockets: Map<int, RawView>,
    iface: IfaceHandle,
    version: IpVersion,
    protocol: IpProtocol,
    stack_wants: bool,
    has_copy: bool,
    packet: Packet,
)
    requires
        raw_sockets_wf(sockets),
    ensures
        raw_sockets_wf(
            offered(
                sockets,
                takes_packet(iface, version, protocol),
                stack_wants,
                has_copy,
                packet,
            ),
        ),
{
    lemma_first_slot_known(sockets, takes_packet(iface, version, protocol));
}

/// A packet goes to one socket at most: the first one that takes it. Every other
/// socket stays as it is.
pub proof fn one_socket_gets_a_packet(
    sockets: Map<int, RawView>,
    takes: spec_fn(RawView) -> bool,
    stack_wants: bool,
    has_copy: bool,
    packet: Packet,
    index: int,
)
    requires
        sockets.contains_key(index),
    ensures
        offered(sockets, takes, stack_wants, has_copy, packet).contains_key(index),
        offered(sockets, takes, stack_wants, has_copy, packet)[index] == if first_slot(
            sockets,
            takes,
        ) == Some(index) {
            delivered(sockets[index], stack_wants, has_copy, packet)
        } else {
            sockets[index]
        },
{
}

/// A socket bound to one interface takes nothing that arrives on another.
pub proof fn bound_socket_hears_only_its_iface(
    socket: RawView,
    bound: IfaceHandle,
    iface: IfaceHandle,
    ethertype: EthernetProtocol,
    version: IpVersion,
    protocol: IpProtocol,
)
    requires
        socket.binding == IfaceBinding::Iface(bound),
        iface != bound,
    ensures
        !takes_frame(iface, ethertype)(socket),
        !takes_packet(iface, version, protocol)(socket),
{
}

/// A socket takes what its filters ask for and nothing else, and one without filters
/// takes everything of its mode.
pub proof fn filters_decide(
    socket: RawView,
    iface: IfaceHandle,
    ethertype: EthernetProtocol,
    version: IpVersion,
    protocol: IpProtocol,
)
    requires
        socket.binding == IfaceBinding::Any,
    ensures
        socket.mode is None ==> !takes_frame(iface, ethertype)(socket) && !takes_packet(
            iface,
            version,
            protocol,
        )(socket),
        socket.mode == Some(RawMode::Ethernet { ethertype: None }) ==> takes_frame(
            iface,
            ethertype,
        )(socket),
        socket.mode == Some(RawMode::Ip { version: None, protocol: None }) ==> takes_packet(
            iface,
            version,
            protocol,
        )(socket),
        forall|other: EthernetProtocol|
            socket.mode == Some(RawMode::Ethernet { ethertype: Some(other) }) ==> (
            #[trigger] takes_frame(iface, other)(socket) && (other != ethertype ==> !takes_frame(
                iface,
                ethertype,
            )(socket))),
{
}

/// A socket bound to an interface sends out of that interface, or not at all.
pub proof fn bound_socket_sends_on_its_iface(tx: TxView, bound: IfaceHandle, dst: IpAddress)
    requires
        forall|index: int| #[trigger]
            tx.ifaces.contains_key(index) ==> tx.ifaces[index].handle.index == index,
    ensures
        tx.route_to(IfaceBinding::Iface(bound), dst) matches Some(route) ==> route.iface == bound,
{
    let binding = IfaceBinding::Iface(bound);
    lemma_first_slot_known(tx.ifaces, is_admitted(binding));
    lemma_first_slot_known(tx.ifaces, is_on_link(binding, dst));
    if let Some(route) = best_route(tx.inner.routes, dst, binding, tx.inner.now) {
        let i = choose|i: int| is_best_route(tx.inner.routes, dst, binding, tx.inner.now, i);
        assert(is_best_route(tx.inner.routes, dst, binding, tx.inner.now, i));
    }
}

/// An IP packet that is refused leaves the interfaces and what they share as they
/// were, unless the interface was found busy.
pub proof fn refused_packet_changes_nothing(
    tx: TxView,
    binding: IfaceBinding,
    version: Option<IpVersion>,
    protocol: Option<IpProtocol>,
    packet: Packet,
    room: bool,
)
    ensures
        ({
            let sending = sending_ip(tx, binding, version, protocol, packet, room);
            sending.result matches Err(error) && error != SendError::DeviceBusy ==> sending.tx == tx
        }),
{
}

/// A frame that is refused is not sent.
pub proof fn refused_frame_changes_nothing(
    tx: TxView,
    iface: IfaceHandle,
    ethertype: Option<EthernetProtocol>,
    packet: Packet,
)
    ensures
        sending_frame(tx, iface, ethertype, packet).result is Err ==> sending_frame(
            tx,
            iface,
            ethertype,
            packet,
        ).tx == tx,
{
}

/// A packet that is queued wakes the task that waits to receive.
pub proof fn arrival_wakes_the_receiver(socket: RawView, packet: Packet)
    requires
        socket.rx_queue.len() < RAW_RX_QUEUE_COUNT,
    ensures
        socket.rx_waker.waiting matches Some(waker) ==> socket.enqueued(packet).rx_waker.woken
            == socket.rx_waker.woken.push(waker),
{
}

/// Closing a socket wakes the tasks that wait on it, so that they notice.
pub proof fn closing_wakes_who_waits(socket: RawView)
    ensures
        socket.rx_waker.waiting matches Some(waker) ==> socket.closed().rx_waker.woken
            == socket.rx_waker.woken.push(waker),
        socket.tx_waker.waiting matches Some(waker) ==> socket.closed().tx_waker.woken
            == socket.tx_waker.woken.push(waker),
{
}

/// A copy was received if and only if one could be made and there was room for it: then
/// the packet stands last in the queue, else the queue is as it was.
pub proof fn received_copy_is_queued(socket: RawView, has_copy: bool, packet: Packet)
    ensures
        delivered(socket, true, has_copy, packet).rx_queue == if has_copy && socket.has_room() {
            socket.rx_queue.push(packet)
        } else {
            socket.rx_queue
        },
{
}

/// Whether a socket in IP mode receives a packet of this version and protocol that arrives
/// on `iface`: every filter that is set is met, and it is not bound to another interface.
pub open spec fn meets_ip_filters(
    socket: RawView,
    iface: IfaceHandle,
    version: IpVersion,
    protocol: IpProtocol,
) -> bool {
    match socket.mode {
        Some(RawMode::Ip { version: wanted_version, protocol: wanted_protocol }) => {
            &&& wanted_version is None || wanted_version == Some(version)
            &&& wanted_protocol is None || wanted_protocol == Some(protocol)
            &&& socket.binding == IfaceBinding::Any || socket.binding == IfaceBinding::Iface(iface)
        },
        _ => false,
    }
}

/// Whether a socket in Ethernet mode receives a frame of this ethertype that arrives on
/// `iface`: it is of the ethertype asked for, if there is one, and the socket is not bound
/// to another interface.
pub open spec fn meets_frame_filter(
    socket: RawView,
    iface: IfaceHandle,
    ethertype: EthernetProtocol,
) -> bool {
    match socket.mode {
        Some(RawMode::Ethernet { ethertype: wanted }) => {
            &&& wanted is None || wanted == Some(ethertype)
            &&& socket.binding == IfaceBinding::Any || socket.binding == IfaceBinding::Iface(iface)
        },
        _ => false,
    }
}

/// A socket takes a packet if and only if every filter that is set is met.
pub proof fn every_filter_counts(
    socket: RawView,
    iface: IfaceHandle,
    ethertype: EthernetProtocol,
    version: IpVersion,
    protocol: IpProtocol,
)
    ensures
        takes_packet(iface, version, protocol)(socket) <==> meets_ip_filters(
            socket,
            iface,
            version,
            protocol,
        ),
        takes_frame(iface, ethertype)(socket) <==> meets_frame_filter(socket, iface, ethertype),
{
}

/// A packet of another protocol than a socket asks for is not taken, whether it asks for a
/// version or not, and a packet of another version is not, whether it asks for a protocol or
/// not. A packet is taken by the socket that asks for just its version and protocol.
pub proof fn filters_are_independent(
    socket: RawView,
    iface: IfaceHandle,
    version: IpVersion,
    protocol: IpProtocol,
    any_version: Option<IpVersion>,
    any_protocol: Option<IpProtocol>,
    other_version: IpVersion,
    other_protocol: IpProtocol,
)
    requires
        other_version != version,
        other_protocol != protocol,
    ensures
        socket.mode == Some(RawMode::Ip { version: any_version, protocol: Some(other_protocol) })
            ==> !takes_packet(iface, version, protocol)(socket),
        socket.mode == Some(RawMode::Ip { version: Some(other_version), protocol: any_protocol })
            ==> !takes_packet(iface, version, protocol)(socket),
        socket.mode == Some(RawMode::Ip { version: Some(version), protocol: Some(protocol) })
            && socket.binding == IfaceBinding::Any ==> takes_packet(iface, version, protocol)(
            socket,
        ),
{
}

/// Whether the socket at `index` is the first to take something.
pub open spec fn is_first_taker(
    sockets: Map<int, RawView>,
    takes: spec_fn(RawView) -> bool,
    index: int,
) -> bool {
    &&& takes(sockets[index])
    &&& forall|below: int|
        0 <= below < index && #[trigger] sockets.contains_key(below) ==> !takes(sockets[below])
}

/// What becomes of each socket when something arrives: the first one that takes it has it
/// last in its queue, unless its queue is full or the stack wants it too and there is no
/// copy. The task that waits to receive is woken then. Else, and for every other socket,
/// nothing changes.
proof fn lemma_first_taker_receives(
    sockets: Map<int, RawView>,
    takes: spec_fn(RawView) -> bool,
    stack_wants: bool,
    has_copy: bool,
    packet: Packet,
    index: int,
)
    requires
        0 <= index,
        sockets.contains_key(index),
    ensures
        ({
            let before = sockets[index];
            let after = offered(sockets, takes, stack_wants, has_copy, packet)[index];
            let receives = is_first_taker(sockets, takes, index) && before.rx_queue.len()
                < RAW_RX_QUEUE_COUNT && (!stack_wants || has_copy);
            &&& !receives ==> after == before
            &&& receives ==> {
                &&& after.rx_queue == before.rx_queue.push(packet)
                &&& after.rx_waker.waiting is None
                &&& before.rx_waker.waiting matches Some(waker) ==> after.rx_waker.woken
                    == before.rx_waker.woken.push(waker)
                &&& after.rx_waker == before.rx_waker.fired()
                &&& after.tx_waker == before.tx_waker
                &&& after.tx_blocked_on == before.tx_blocked_on
                &&& after.mode == before.mode
                &&& after.binding == before.binding
                &&& after.tx_waker == before.tx_waker
                &&& after.tx_blocked_on == before.tx_blocked_on
            }
        }),
{
    lemma_first_slot_known(sockets, takes);
    if takes(sockets[index]) {
        lemma_first_slot_found(sockets, takes, index);
    }
}

/// An IP packet is received by the first socket whose filters it meets, and by no other one.
pub proof fn first_matching_socket_receives_the_packet(
    sockets: Map<int, RawView>,
    iface: IfaceHandle,
    version: IpVersion,
    protocol: IpProtocol,
    stack_wants: bool,
    has_copy: bool,
    packet: Packet,
    index: int,
)
    requires
        0 <= index,
        sockets.contains_key(index),
    ensures
        ({
            let before = sockets[index];
            let after = offered(
                sockets,
                takes_packet(iface, version, protocol),
                stack_wants,
                has_copy,
                packet,
            )[index];
            let first = meets_ip_filters(before, iface, version, protocol) && forall|below: int|
                0 <= below < index && #[trigger] sockets.contains_key(below) ==> !meets_ip_filters(
                    sockets[below],
                    iface,
                    version,
                    protocol,
                );
            if first && before.rx_queue.len() < RAW_RX_QUEUE_COUNT && (!stack_wants || has_copy) {
                &&& after.rx_queue == before.rx_queue.push(packet)
                &&& after.mode == before.mode
                &&& after.binding == before.binding
                &&& before.rx_waker.waiting matches Some(waker) ==> after.rx_waker.woken
                    == before.rx_waker.woken.push(waker)
                &&& after.rx_waker == before.rx_waker.fired()
                &&& after.tx_waker == before.tx_waker
                &&& after.tx_blocked_on == before.tx_blocked_on
            } else {
                after == before
            }
        }),
{
    let takes = takes_packet(iface, version, protocol);
    lemma_first_taker_receives(sockets, takes, stack_wants, has_copy, packet, index);
    assert forall|i: int| #[trigger] sockets.contains_key(i) implies takes(sockets[i])
        == meets_ip_filters(sockets[i], iface, version, protocol) by {
        every_filter_counts(sockets[i], iface, EthernetProtocol(0), version, protocol);
    }
}

/// A frame is received by the first socket whose filter it meets, and by no other one.
pub proof fn first_matching_socket_receives_the_frame(
    sockets: Map<int, RawView>,
    iface: IfaceHandle,
    ethertype: EthernetProtocol,
    stack_wants: bool,
    has_copy: bool,
    packet: Packet,
    index: int,
)
    requires
        0 <= index,
        sockets.contains_key(index),
    ensures
        ({
            let before = sockets[index];
            let after = offered(
                sockets,
                takes_frame(iface, ethertype),
                stack_wants,
                has_copy,
                packet,
            )[index];
            let first = meets_frame_filter(before, iface, ethertype) && forall|below: int|
                0 <= below < index && #[trigger] sockets.contains_key(below)
                    ==> !meets_frame_filter(sockets[below], iface, ethertype);
            if first && before.rx_queue.len() < RAW_RX_QUEUE_COUNT && (!stack_wants || has_copy) {
                &&& after.rx_queue == before.rx_queue.push(packet)
                &&& after.mode == before.mode
                &&& after.binding == before.binding
                &&& before.rx_waker.waiting matches Some(waker) ==> after.rx_waker.woken
                    == before.rx_waker.woken.push(waker)
                &&& after.rx_waker == before.rx_waker.fired()
                &&& after.tx_waker == before.tx_waker
                &&& after.tx_blocked_on == before.tx_blocked_on
            } else {
                after == before
            }
        }),
{
    let takes = takes_frame(iface, ethertype);
    lemma_first_taker_receives(sockets, takes, stack_wants, has_copy, packet, index);
    assert forall|i: int| #[trigger] sockets.contains_key(i) implies takes(sockets[i])
        == meets_frame_filter(sockets[i], iface, ethertype) by {
        every_filter_counts(sockets[i], iface, ethertype, IpVersion::V4, IpProtocol(0));
    }
}

/// A frame is sent if and only if it has the 14 bytes of an Ethernet header, with the
/// ethertype the socket is bound to, if it is bound to one, in its last two. It goes to the
/// driver as it is.
pub proof fn frames_are_sent_as_they_are(
    tx: TxView,
    iface: IfaceHandle,
    ethertype: Option<EthernetProtocol>,
    packet: Packet,
)
    ensures
        ({
            let sending = sending_frame(tx, iface, ethertype, packet);
            let index = iface.index as int;
            &&& sending.busy is None
            &&& if packet.bytes.len() >= 14 && (ethertype is None || packet.bytes[12] * 256
                + packet.bytes[13] == ethertype.unwrap().0) {
                &&& sending.result is Ok
                &&& sending.tx.inner == tx.inner
                &&& sending.tx.ifaces[index].calls == tx.ifaces[index].calls.push(
                    DriverCall::Transmit(packet),
                )
                &&& forall|i: int|
                    i != index && #[trigger] tx.ifaces.contains_key(i) ==> sending.tx.ifaces[i]
                        == tx.ifaces[i]
            } else {
                sending.result == Err::<(), SendError>(SendError::Malformed) && sending.tx == tx
            }
        }),
{
}

/// An IP packet is sent if and only if its headers are in order, it is of the version and
/// protocol the socket is bound to, its destination is specified and can be reached, and
/// the interface has room. Each failure has its own error. Of a busy interface the socket
/// takes note.
pub proof fn packets_are_sent_if_they_can_be(
    tx: TxView,
    before: RawView,
    version: Option<IpVersion>,
    protocol: Option<IpProtocol>,
    packet: Packet,
    room: bool,
)
    ensures
        ({
            let sending = sending_ip(tx, before.binding, version, protocol, packet, room);
            match ip_headers(packet.bytes) {
                None => sending.result == Err::<(), SendError>(SendError::Malformed),
                Some((dst, next_header)) => {
                    let fits = (version is None || (version == Some(IpVersion::V4)) == (
                    dst is Ipv4)) && (protocol is None || protocol == Some(next_header));
                    let specified = match dst {
                        IpAddress::Ipv4(dst) => dst.bits != 0,
                        IpAddress::Ipv6(dst) => dst.bits != 0,
                    };
                    let route = tx.route_to(before.binding, dst);
                    &&& sending.result is Ok <==> fits && specified && route is Some && room
                    &&& sending.result == Err::<(), SendError>(SendError::Malformed) <==> !fits
                    &&& sending.result == Err::<(), SendError>(SendError::Unaddressable) <==> fits
                        && (!specified || route is None)
                    &&& sending.result == Err::<(), SendError>(SendError::DeviceBusy) <==> fits
                        && specified && route is Some && !room
                    &&& sending.result is Ok ==> sending.tx == tx.asked(
                        route->0.iface.index as int,
                        true,
                    ).sent_ip(route->0, packet)
                    &&& sending.result == Err::<(), SendError>(SendError::DeviceBusy)
                        ==> sending.socket(before).tx_blocked_on == Some(route->0.iface)
                }
            }
        }),
        sending_ip(tx, before.binding, version, protocol, packet, room).result
            != Err::<(), SendError>(SendError::DeviceBusy) ==> sending_ip(
            tx,
            before.binding,
            version,
            protocol,
            packet,
            room,
        ).socket(before) == before,
        sending_ip(tx, before.binding, version, protocol, packet, room).socket(before).rx_queue
            == before.rx_queue,
{
}

/// Frames go out of the interface the socket is bound to, and else out of the first
/// Ethernet interface. There is none to send on if and only if there is no such interface.
pub proof fn frames_go_out_of_an_ethernet_iface(tx: TxView, binding: IfaceBinding)
    requires
        forall|i: int| #[trigger] tx.ifaces.contains_key(i) ==> 0 <= i <= usize::MAX,
    ensures
        binding matches IfaceBinding::Iface(iface) ==> frame_iface(tx, binding) == Some(iface),
        binding == IfaceBinding::Any ==> {
            &&& frame_iface(tx, binding) is None <==> forall|i: int| #[trigger]
                tx.ifaces.contains_key(i) ==> tx.ifaces[i].medium != Medium::Ethernet
            &&& frame_iface(tx, binding) matches Some(iface) ==> {
                &&& tx.ifaces.contains_key(iface.index as int)
                &&& tx.ifaces[iface.index as int].medium == Medium::Ethernet
                &&& forall|i: int|
                    i < iface.index && #[trigger] tx.ifaces.contains_key(i) ==> tx.ifaces[i].medium
                        != Medium::Ethernet
            }
        },
{
    let p = is_ethernet();
    assert forall|i: int| #[trigger] tx.ifaces.contains_key(i) implies p(tx.ifaces[i]) == (
    tx.ifaces[i].medium == Medium::Ethernet) by {}
    lemma_first_slot_known(tx.ifaces, p);
    if let Some(i) = first_slot(tx.ifaces, p) {
        assert(tx.ifaces.contains_key(i));
        assert(i as usize as int == i);
    }
    if exists|i: int| #[trigger]
        tx.ifaces.contains_key(i) && tx.ifaces[i].medium == Medium::Ethernet {
        let i = choose|i: int| #[trigger]
            tx.ifaces.contains_key(i) && tx.ifaces[i].medium == Medium::Ethernet;
        lemma_first_slot_found(tx.ifaces, p, i);
    }
}

/// A packet buffer holds a frame of its whole size, and an IP packet that leaves room for the
/// 14 bytes of a link-layer header.
pub proof fn ip_packets_leave_room_for_a_header(ethertype: Option<EthernetProtocol>, version: Option<
    IpVersion,
>, protocol: Option<IpProtocol>, size: usize)
    ensures
        packet_fits(RawMode::Ethernet { ethertype }, size) <==> size <= PACKET_BUF_SIZE,
        packet_fits(RawMode::Ip { version, protocol }, size) <==> size + 14 <= PACKET_BUF_SIZE,
{
}

/// A socket that is closed is not bound to a mode any more, holds no packet and waits for no
/// interface. It keeps its interface binding.
pub proof fn closed_socket_is_empty(socket: RawView)
    ensures
        socket.closed().mode is None,
        socket.closed().rx_queue.len() == 0,
        socket.closed().tx_blocked_on is None,
        socket.closed().binding == socket.binding,
        socket.closed().rx_waker.waiting is None,
        socket.closed().tx_waker.waiting is None,
        RawView::unbound().mode is None,
        RawView::unbound().binding == IfaceBinding::Any,
        RawView::unbound().rx_queue.len() == 0,
        RawView::unbound().tx_blocked_on is None,
{
}

/// A send that ends before there is a packet ends with an error. A socket that is not bound is
/// told so. An Ethernet socket without an interface to send on cannot reach anyone, and one
/// whose interface is busy takes note of it. Else there is no buffer, or the packet is longer
/// than one.
pub proof fn send_ends_early_for_a_reason(
    before: RawView,
    tx_before: TxView,
    max_size: usize,
    after: RawView,
    tx: TxView,
    result: Result<(), SendError>,
)
    requires
        send_ended_early(before, tx_before, max_size, after, tx, result),
    ensures
        ({
            let iface = frame_iface(tx_before, before.binding);
            let longest: int = if before.mode matches Some(RawMode::Ip { .. }) {
                PACKET_BUF_SIZE - 14
            } else {
                PACKET_BUF_SIZE as int
            };
            match result {
                Ok(()) => false,
                Err(SendError::InvalidState) => before.mode is None && after == before && tx
                    == tx_before,
                Err(SendError::Unaddressable) => (before.mode matches Some(
                    RawMode::Ethernet { .. },
                )) && iface is None && after == before && tx == tx_before,
                Err(SendError::DeviceBusy) => {
                    &&& before.mode matches Some(RawMode::Ethernet { .. })
                    &&& iface matches Some(iface)
                    &&& after == (RawView { tx_blocked_on: Some(iface), ..before })
                    &&& tx == tx_before.asked(iface.index as int, false)
                },
                Err(SendError::NoBuffer) => before.mode is Some && after == before,
                Err(SendError::BufferFull) => before.mode is Some && after == before && max_size
                    > longest,
                Err(_) => false,
            }
        }),
        before.mode is None ==> result == Err::<(), SendError>(SendError::InvalidState),
        (before.mode matches Some(RawMode::Ip { .. })) ==> tx == tx_before,
{
}

/// A send of a packet that was built is one of a bound socket, of a packet that fits in a
/// buffer, and is reported as it went: a packet that was sent went to the driver or the link
/// layer, and one that was not left no trace but that its interface was busy.
pub proof fn send_is_reported_as_it_went(
    before: RawView,
    tx_before: TxView,
    max_size: usize,
    packet: Packet,
    after: RawView,
    tx: TxView,
    result: Result<(), SendError>,
) -> (room: bool)
    requires
        send_went_through(before, tx_before, max_size, packet, after, tx, result),
    ensures
        before.mode is Some,
        max_size <= PACKET_BUF_SIZE,
        match before.mode->0 {
            RawMode::Ethernet { ethertype } => {
                let iface = frame_iface(tx_before, before.binding);
                let asked = tx_before.asked(iface->0.index as int, true);
                let sending = sending_frame(asked, iface->0, ethertype, packet);
                &&& iface is Some
                &&& result == sending.result
                &&& tx == sending.tx
                &&& after == before
            },
            RawMode::Ip { version, protocol } => {
                let sending = sending_ip(
                    tx_before,
                    before.binding,
                    version,
                    protocol,
                    packet,
                    room,
                );
                &&& max_size + 14 <= PACKET_BUF_SIZE
                &&& result == sending.result
                &&& tx == sending.tx
                &&& if result == Err::<(), SendError>(SendError::DeviceBusy) {
                    after.tx_blocked_on is Some && after == (RawView {
                        tx_blocked_on: after.tx_blocked_on,
                        ..before
                    })
                } else {
                    after == before
                }
            },
        },
{
    match before.mode->0 {
        RawMode::Ethernet { ethertype } => true,
        RawMode::Ip { version, protocol } => choose|room: bool|
            #![trigger can_answer_ip(tx_before, before.binding, packet, room)]
            can_answer_ip(tx_before, before.binding, packet, room) && sent_as(
                sending_ip(tx_before, before.binding, version, protocol, packet, room),
                before,
                after,
                tx,
                result,
            ),
    }
}

} // verus!

//! What holds of where packets go.

use crate::iface::source_laws::on_link_shares_a_prefix;
use crate::iface::state::IfaceView;
use crate::iface::{IfaceBinding, IfaceHandle, Medium};
use crate::driver::{Capabilities, DriverCall, Packet};
use crate::route::{best_route, is_best_route, lemma_best_route, Route};
use crate::stack::{
    iface_error, is_admitted, is_on_link, AddIfaceError, LinkWorkView, RouteTarget, TxView,
};
use crate::storage::slab::{
    first_slot, lemma_first_slot_found, lemma_first_slot_known, lemma_no_first_slot,
};
use crate::time::Instant;
use crate::wire::subnet_laws::{shares_prefix, subnet_is_its_prefix};
use crate::wire::{HardwareAddress, IpAddress, IpCidr};
use vstd::prelude::*;

verus! {

/// The length of the prefix of a subnet.
pub open spec fn prefix_bits(cidr: IpCidr) -> int {
    match cidr {
        IpCidr::Ipv4(cidr) => cidr.prefix_len as int,
        IpCidr::Ipv6(cidr) => cidr.prefix_len as int,
    }
}

/// Whether a binding allows an interface: it names none, or this one.
pub open spec fn allows(binding: IfaceBinding, iface: IfaceHandle) -> bool {
    binding == IfaceBinding::Any || binding == IfaceBinding::Iface(iface)
}

/// Whether a route can be taken: it has not expired, the binding allows its interface, and
/// the destination shares the prefix of its subnet.
pub open spec fn is_passable(
    route: Route,
    dst: IpAddress,
    binding: IfaceBinding,
    now: Instant,
) -> bool {
    &&& route.expires_at is None || now.micros < route.expires_at->0.micros
    &&& allows(binding, route.iface)
    &&& shares_prefix(route.cidr, dst)
}

/// A route leads to what can be reached through it.
proof fn lemma_passable(route: Route, dst: IpAddress, binding: IfaceBinding, now: Instant)
    requires
        route.cidr.wf(),
    ensures
        route.leads_to(dst, binding, now) <==> is_passable(route, dst, binding, now),
{
    subnet_is_its_prefix(route.cidr, dst);
}

/// Of the first `n` routes, one that can be taken is the one to take, if there is any.
proof fn lemma_some_best(
    routes: Seq<Route>,
    dst: IpAddress,
    binding: IfaceBinding,
    now: Instant,
    n: int,
) -> (best: int)
    requires
        0 <= n <= routes.len(),
    ensures
        (exists|i: int| 0 <= i < n && (#[trigger] routes[i]).leads_to(dst, binding, now))
            ==> 0 <= best < n && routes[best].leads_to(dst, binding, now) && forall|j: int|
            0 <= j < n && (#[trigger] routes[j]).leads_to(dst, binding, now)
                ==> routes[j].cidr.prefix() <= routes[best].cidr.prefix() && (j > best
                ==> routes[j].cidr.prefix() < routes[best].cidr.prefix()),
    decreases n,
{
    if n == 0 {
        0
    } else {
        let before = lemma_some_best(routes, dst, binding, now, n - 1);
        let had = exists|i: int|
            0 <= i < n - 1 && (#[trigger] routes[i]).leads_to(dst, binding, now);
        if routes[n - 1].leads_to(dst, binding, now) && (!had || routes[n - 1].cidr.prefix()
            >= routes[before].cidr.prefix()) {
            n - 1
        } else {
            before
        }
    }
}

/// The route taken is one that can be taken, and of those with the longest prefix it is the
/// last. There is none if and only if no route can be taken.
pub proof fn longest_prefix_is_taken(
    routes: Seq<Route>,
    dst: IpAddress,
    binding: IfaceBinding,
    now: Instant,
)
    requires
        forall|i: int| 0 <= i < routes.len() ==> (#[trigger] routes[i]).cidr.wf(),
    ensures
        best_route(routes, dst, binding, now) is None <==> forall|i: int|
            0 <= i < routes.len() ==> !is_passable(#[trigger] routes[i], dst, binding, now),
        best_route(routes, dst, binding, now) matches Some(route) ==> exists|k: int|
            {
                &&& 0 <= k < routes.len()
                &&& #[trigger] routes[k] == route
                &&& is_passable(route, dst, binding, now)
                &&& forall|j: int|
                    0 <= j < routes.len() && is_passable(#[trigger] routes[j], dst, binding, now)
                        ==> prefix_bits(routes[j].cidr) < prefix_bits(route.cidr) || prefix_bits(
                        routes[j].cidr,
                    ) == prefix_bits(route.cidr) && j <= k
            },
{
    assert forall|i: int| 0 <= i < routes.len() implies (#[trigger] routes[i]).leads_to(
        dst,
        binding,
        now,
    ) == is_passable(routes[i], dst, binding, now) by {
        lemma_passable(routes[i], dst, binding, now);
    }
    if exists|i: int|
        0 <= i < routes.len() && is_passable(#[trigger] routes[i], dst, binding, now) {
        let i = choose|i: int|
            0 <= i < routes.len() && is_passable(#[trigger] routes[i], dst, binding, now);
        assert(routes[i].leads_to(dst, binding, now));
        let k = lemma_some_best(routes, dst, binding, now, routes.len() as int);
        assert(is_best_route(routes, dst, binding, now, k));
        lemma_best_route(routes, dst, binding, now, k);
        assert(routes[k].leads_to(dst, binding, now));
    } else if best_route(routes, dst, binding, now) is Some {
        let k = choose|i: int| is_best_route(routes, dst, binding, now, i);
        assert(is_best_route(routes, dst, binding, now, k));
        assert(routes[k].leads_to(dst, binding, now));
    }
}

/// Whether packets to an address go to many hosts: IPv4 multicast and broadcast, and IPv6
/// multicast.
pub open spec fn goes_to_many(dst: IpAddress) -> bool {
    match dst {
        IpAddress::Ipv4(dst) => 0xe000_0000 <= dst.bits <= 0xefff_ffff || dst.bits == 0xffff_ffff,
        IpAddress::Ipv6(dst) => dst.bits >= 0xff00_0000_0000_0000_0000_0000_0000_0000,
    }
}

/// Whether an interface reaches `dst` without a router: the binding allows it, and the
/// packet goes to many hosts, or shares the prefix of one of its addresses.
pub open spec fn reaches(iface: IfaceView, binding: IfaceBinding, dst: IpAddress) -> bool {
    &&& allows(binding, iface.handle)
    &&& goes_to_many(dst) || exists|i: int|
        0 <= i < iface.ip_addrs.len() && shares_prefix(
            (#[trigger] iface.ip_addrs[i]).cidr,
            dst,
        )
}

/// The test for an interface is what it is meant to be.
proof fn lemma_reaches(iface: IfaceView, binding: IfaceBinding, dst: IpAddress)
    requires
        iface.wf(),
    ensures
        goes_to_many(dst) == dst.for_many(),
        goes_to_many(dst) ==> is_admitted(binding)(iface) == reaches(iface, binding, dst),
        !goes_to_many(dst) ==> is_on_link(binding, dst)(iface) == reaches(iface, binding, dst),
{
    on_link_shares_a_prefix(iface.ip_addrs, dst);
}

/// A packet goes straight to its destination out of the first interface that reaches it
/// without a router. Only if there is none, it goes to the router of the best route, if the
/// interface of that is there, and one for many hosts goes nowhere.
pub proof fn packets_go_straight_if_they_can(tx: TxView, binding: IfaceBinding, dst: IpAddress)
    requires
        forall|i: int| #[trigger] tx.ifaces.contains_key(i) ==> 0 <= i <= usize::MAX
            && tx.ifaces[i].wf() && tx.ifaces[i].handle.index == i,
        forall|i: int| 0 <= i < tx.inner.routes.len() ==> (#[trigger] tx.inner.routes[i]).cidr.wf(),
    ensures
        (exists|i: int| #[trigger] tx.ifaces.contains_key(i) && reaches(tx.ifaces[i], binding, dst))
            ==> (tx.route_to(binding, dst) matches Some(target) && {
            &&& target.next_hop == dst
            &&& tx.ifaces.contains_key(target.iface.index as int)
            &&& reaches(tx.ifaces[target.iface.index as int], binding, dst)
            &&& forall|i: int|
                i < target.iface.index && #[trigger] tx.ifaces.contains_key(i) ==> !reaches(
                    tx.ifaces[i],
                    binding,
                    dst,
                )
        }),
        (forall|i: int| #[trigger]
            tx.ifaces.contains_key(i) ==> !reaches(tx.ifaces[i], binding, dst)) ==> match best_route(
            tx.inner.routes,
            dst,
            binding,
            tx.inner.now,
        ) {
            Some(route) => tx.route_to(binding, dst) == if !goes_to_many(dst)
                && tx.ifaces.contains_key(route.iface.index as int) {
                Some(RouteTarget { iface: route.iface, next_hop: route.via_router })
            } else {
                None::<RouteTarget>
            },
            None => tx.route_to(binding, dst) is None,
        },
{
    let p = if dst.for_many() {
        is_admitted(binding)
    } else {
        is_on_link(binding, dst)
    };
    assert forall|i: int| #[trigger] tx.ifaces.contains_key(i) implies p(tx.ifaces[i]) == reaches(
        tx.ifaces[i],
        binding,
        dst,
    ) && goes_to_many(dst) == dst.for_many() by {
        lemma_reaches(tx.ifaces[i], binding, dst);
    }
    assert(goes_to_many(dst) == dst.for_many());
    lemma_first_slot_known(tx.ifaces, p);
    if exists|i: int| #[trigger] tx.ifaces.contains_key(i) && reaches(tx.ifaces[i], binding, dst) {
        let i = choose|i: int| #[trigger]
            tx.ifaces.contains_key(i) && reaches(tx.ifaces[i], binding, dst);
        lemma_first_slot_found(tx.ifaces, p, i);
        let first = first_slot(tx.ifaces, p)->0;
        assert(tx.ifaces.contains_key(first));
        assert(first as usize as int == first);
    } else {
        lemma_no_first_slot(tx.ifaces, p);
    }
}

/// A packet that is sent along a route is handed to the driver of an interface without a
/// link layer, and else left to the link layer, as it is and once. Every other interface,
/// the routes and the time stay as they are.
pub proof fn sent_packet_is_handed_on_once(tx: TxView, route: RouteTarget, packet: Packet)
    requires
        tx.ifaces.contains_key(route.iface.index as int),
    ensures
        ({
            let index = route.iface.index as int;
            let after = tx.sent_ip(route, packet);
            &&& after.inner.routes == tx.inner.routes
            &&& after.inner.now == tx.inner.now
            &&& after.ifaces.dom() =~= tx.ifaces.dom()
            &&& forall|i: int|
                i != index && #[trigger] tx.ifaces.contains_key(i) ==> after.ifaces[i]
                    == tx.ifaces[i]
            &&& tx.ifaces[index].medium == Medium::Ip ==> {
                &&& after.inner.work == tx.inner.work
                &&& after.ifaces[index].calls == tx.ifaces[index].calls.push(
                    DriverCall::Transmit(packet),
                )
            }
            &&& tx.ifaces[index].medium != Medium::Ip ==> {
                &&& after.ifaces[index] == tx.ifaces[index]
                &&& after.inner.work == tx.inner.work.push(
                    LinkWorkView::SendIp { iface: route.iface, next_hop: route.next_hop, packet },
                )
            }
        }),
{
}

/// Asking an interface for room asks its driver once, and says what it answered. While
/// fragments are going out there is no room, and the driver is not asked.
pub proof fn driver_is_asked_for_room(tx: TxView, index: int, room: bool)
    requires
        tx.ifaces.contains_key(index),
    ensures
        tx.ifaces[index].fragments_pending ==> tx.asked(index, room) == tx && (tx.can_answer(
            index,
            room,
        ) <==> !room),
        !tx.ifaces[index].fragments_pending ==> tx.can_answer(index, room) && tx.asked(
            index,
            room,
        ).ifaces[index].calls == tx.ifaces[index].calls.push(DriverCall::CanTransmit(room))
            && tx.asked(index, room).inner == tx.inner,
{
}

/// An interface is refused if its hardware address is not of the kind its medium uses, or
/// if an Ethernet frame is not long enough for its header of 14 bytes, and for nothing else.
pub proof fn iface_has_to_fit_together(caps: Capabilities, hardware_addr: HardwareAddress)
    ensures
        ({
            let fits = match hardware_addr {
                HardwareAddress::Ip => caps.medium == crate::driver::Medium::Ip,
                HardwareAddress::Ethernet(_) => caps.medium == crate::driver::Medium::Ethernet,
                HardwareAddress::Ieee802154(_) => caps.medium == crate::driver::Medium::Ieee802154,
            };
            &&& !fits ==> iface_error(caps, hardware_addr) == Some(
                AddIfaceError::InvalidHardwareAddr,
            )
            &&& fits && hardware_addr is Ethernet && caps.max_transmission_unit < 14
                ==> iface_error(caps, hardware_addr) == Some(AddIfaceError::InvalidMtu)
            &&& fits && (!(hardware_addr is Ethernet) || caps.max_transmission_unit >= 14)
                ==> iface_error(caps, hardware_addr) is None
        }),
{
}

} // verus!

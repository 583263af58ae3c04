//! SLAAC at work on an interface.

use super::slaac::{
    formed_address, from_link_prefix, lemma_advertised_wf, lemma_updated_wf, PrefixInfo,
    Route as LearnedRoute, Slaac, SlaacView,
};
use super::state::{addrs_wf, IfaceState, IfaceView};
use super::{first_half, AddrOrigin, IfaceAddr, IfaceHandle};
use crate::config::{IFACE_ADDR_COUNT, ROUTE_COUNT};
use crate::lists::{lemma_filter_from, lemma_position_is, lemma_position_none, position};
use crate::route::{Route, RouteOrigin, Routes};
use crate::stack::{InnerView, LinkWorkView, StackInner};
use crate::storage::BoundedVec;
use crate::time::Instant;
use crate::wire::ndisc::{
    link_layer_addr, link_layer_addr_among, parse_link_layer_addr, prefixes_among, RouterAdvert,
};
use crate::wire::{HardwareAddress, IpAddress, IpCidr, Ipv6Address, Ipv6Cidr};
use vstd::prelude::*;

verus! {

/// Whether the address is `address`.
pub open spec fn is_cidr(address: Ipv6Cidr) -> spec_fn(IfaceAddr) -> bool {
    |addr: IfaceAddr| addr.cidr == IpCidr::Ipv6(address)
}

/// The addresses once a prefix has its own, if it is valid and forms one. One that
/// is SLAAC's is refreshed, one that is not is left alone, and a new one is not
/// assigned if there is no room.
pub open spec fn with_prefix_addr(
    addrs: Seq<IfaceAddr>,
    prefix: (Ipv6Cidr, PrefixInfo),
    hardware_addr: HardwareAddress,
    now: Instant,
) -> Seq<IfaceAddr> {
    match formed_address(prefix.0, hardware_addr) {
        Some(address) => if !prefix.1.valid(now) {
            addrs
        } else {
            match position(addrs, is_cidr(address)) {
                Some(i) => if addrs[i].origin == AddrOrigin::Slaac {
                    addrs.update(
                        i,
                        IfaceAddr { preferred_until: Some(prefix.1.preferred_until), ..addrs[i] },
                    )
                } else {
                    addrs
                },
                None => if addrs.len() < IFACE_ADDR_COUNT {
                    addrs.push(
                        IfaceAddr {
                            cidr: IpCidr::Ipv6(address),
                            origin: AddrOrigin::Slaac,
                            preferred_until: Some(prefix.1.preferred_until),
                        },
                    )
                } else {
                    addrs
                },
            }
        },
        None => addrs,
    }
}

/// The addresses once each prefix in turn has its own.
pub open spec fn with_prefix_addrs(
    addrs: Seq<IfaceAddr>,
    prefixes: Seq<(Ipv6Cidr, PrefixInfo)>,
    hardware_addr: HardwareAddress,
    now: Instant,
) -> Seq<IfaceAddr>
    decreases prefixes.len(),
{
    if prefixes.len() == 0 {
        addrs
    } else {
        with_prefix_addr(
            with_prefix_addrs(addrs, prefixes.drop_last(), hardware_addr, now),
            prefixes.last(),
            hardware_addr,
            now,
        )
    }
}

/// Whether an address was formed from a prefix, under whichever hardware address: the
/// prefix is 64 bits long, and the address starts with them.
pub open spec fn formed_under(prefix: Ipv6Cidr, address: Ipv6Address) -> bool {
    prefix.prefix_len == 64 && first_half(address) == first_half(prefix.address)
}

/// Whether an address of SLAAC's was formed from a prefix that has expired.
pub open spec fn addr_expired(
    addr: IfaceAddr,
    prefixes: Seq<(Ipv6Cidr, PrefixInfo)>,
    now: Instant,
) -> bool {
    addr.origin == AddrOrigin::Slaac && (addr.cidr matches IpCidr::Ipv6(cidr) && exists|i: int|
        0 <= i < prefixes.len() && !(#[trigger] prefixes[i]).1.valid(now) && formed_under(
            prefixes[i].0,
            cidr.address,
        ))
}

/// The addresses that are kept: those not formed from an expired prefix.
pub open spec fn addr_kept(prefixes: Seq<(Ipv6Cidr, PrefixInfo)>, now: Instant) -> spec_fn(
    IfaceAddr,
) -> bool {
    |addr: IfaceAddr| !addr_expired(addr, prefixes, now)
}

/// The addresses of the interface after synchronization: every valid prefix gets
/// its address, and every address of an expired prefix goes.
pub open spec fn synced_addrs(
    addrs: Seq<IfaceAddr>,
    slaac: SlaacView,
    hardware_addr: HardwareAddress,
    now: Instant,
) -> Seq<IfaceAddr> {
    with_prefix_addrs(addrs, slaac.prefix, hardware_addr, now).filter(
        addr_kept(slaac.prefix, now),
    )
}

/// Whether a route of the table is the one of SLAAC's, on this interface, to
/// `cidr` through `router`.
pub open spec fn is_slaac_route(
    route: Route,
    iface: IfaceHandle,
    cidr: Ipv6Cidr,
    router: Ipv6Address,
) -> bool {
    route.origin == RouteOrigin::Slaac && route.iface == iface && route.cidr == IpCidr::Ipv6(cidr)
        && route.via_router == IpAddress::Ipv6(router)
}

/// Whether a route of the table is the one of SLAAC's for a learned route.
pub open spec fn is_route_of(learned: LearnedRoute, iface: IfaceHandle) -> spec_fn(Route) -> bool {
    |route: Route| is_slaac_route(route, iface, learned.cidr, learned.via_router)
}

/// Whether a route of the table was learned and has expired.
pub open spec fn route_expired(
    route: Route,
    learned: Seq<LearnedRoute>,
    iface: IfaceHandle,
    now: Instant,
) -> bool {
    exists|i: int|
        0 <= i < learned.len() && !(#[trigger] learned[i]).valid(now) && is_slaac_route(
            route,
            iface,
            learned[i].cidr,
            learned[i].via_router,
        )
}

/// The routes that are kept: those that were not learned or have not expired.
pub open spec fn route_kept(
    learned: Seq<LearnedRoute>,
    iface: IfaceHandle,
    now: Instant,
) -> spec_fn(Route) -> bool {
    |route: Route| !route_expired(route, learned, iface, now)
}

/// The routing table once a learned route is in it, if it is valid. A new one is
/// not installed if there is no room.
pub open spec fn with_learned_route(
    routes: Seq<Route>,
    learned: LearnedRoute,
    iface: IfaceHandle,
    now: Instant,
) -> Seq<Route> {
    if !learned.valid(now) {
        routes
    } else {
        match position(routes, is_route_of(learned, iface)) {
            Some(i) => routes.update(
                i,
                Route { expires_at: Some(learned.valid_until), ..routes[i] },
            ),
            None => if routes.len() < ROUTE_COUNT {
                routes.push(
                    Route {
                        cidr: IpCidr::Ipv6(learned.cidr),
                        via_router: IpAddress::Ipv6(learned.via_router),
                        iface,
                        origin: RouteOrigin::Slaac,
                        preferred_until: None,
                        expires_at: Some(learned.valid_until),
                    },
                )
            } else {
                routes
            },
        }
    }
}

/// The routing table once each learned route in turn is in it.
pub open spec fn with_learned_routes(
    routes: Seq<Route>,
    learned: Seq<LearnedRoute>,
    iface: IfaceHandle,
    now: Instant,
) -> Seq<Route>
    decreases learned.len(),
{
    if learned.len() == 0 {
        routes
    } else {
        with_learned_route(
            with_learned_routes(routes, learned.drop_last(), iface, now),
            learned.last(),
            iface,
            now,
        )
    }
}

/// The routing table after synchronization: expired routes go, and valid ones are
/// there with their lifetime.
pub open spec fn synced_routes(
    routes: Seq<Route>,
    slaac: SlaacView,
    iface: IfaceHandle,
    now: Instant,
) -> Seq<Route> {
    with_learned_routes(
        routes.filter(route_kept(slaac.routes, iface, now)),
        slaac.routes,
        iface,
        now,
    )
}

/// The interface after synchronization.
pub open spec fn synced_iface(iface: IfaceView, now: Instant) -> IfaceView {
    match iface.slaac {
        Some(slaac) => (IfaceView {
            ip_addrs: synced_addrs(iface.ip_addrs, slaac, iface.hardware_addr, now),
            slaac: Some(slaac.updated(now)),
            ..iface
        }).changed(),
        None => iface,
    }
}

/// What the interfaces share after one of them was synchronized.
pub open spec fn synced_inner(inner: InnerView, iface: IfaceView) -> InnerView {
    match iface.slaac {
        Some(slaac) => InnerView {
            routes: synced_routes(inner.routes, slaac, iface.handle, inner.now),
            ..inner
        },
        None => inner,
    }
}

/// Where the address is among the assigned ones.
fn find_cidr(addrs: &BoundedVec<IfaceAddr, IFACE_ADDR_COUNT>, address: Ipv6Cidr) -> (index: Option<
    usize,
>)
    ensures
        index is Some <==> position(addrs@, is_cidr(address)) is Some,
        index matches Some(i) ==> i < addrs@.len() && position(addrs@, is_cidr(address)) == Some(
            i as int,
        ),
{
    let ghost p = is_cidr(address);
    let mut index: usize = 0;
    while index < addrs.len()
        invariant
            index <= addrs@.len(),
            p == is_cidr(address),
            forall|i: int| 0 <= i < index ==> !p(#[trigger] addrs@[i]),
        decreases addrs@.len() - index,
    {
        if addrs.get(index).cidr == IpCidr::Ipv6(address) {
            proof {
                lemma_position_is(addrs@, p, index as int);
            }
            return Some(index);
        }
        index += 1;
    }
    proof {
        lemma_position_none(addrs@, p);
    }
    None
}

/// Give every valid prefix its address.
fn install_addrs(
    addrs: &mut BoundedVec<IfaceAddr, IFACE_ADDR_COUNT>,
    slaac: &Slaac,
    hardware_addr: HardwareAddress,
    now: Instant,
)
    ensures
        final(addrs)@ == with_prefix_addrs(old(addrs)@, slaac@.prefix, hardware_addr, now),
        addrs_wf(old(addrs)@) ==> addrs_wf(final(addrs)@),
{
    let ghost prefixes = slaac@.prefix;
    let mut index: usize = 0;
    assert(prefixes.take(0) =~= Seq::empty());
    while index < slaac.prefix.len()
        invariant
            prefixes == slaac@.prefix,
            index <= prefixes.len(),
            addrs@ == with_prefix_addrs(
                old(addrs)@,
                prefixes.take(index as int),
                hardware_addr,
                now,
            ),
            addrs_wf(old(addrs)@) ==> addrs_wf(addrs@),
        decreases prefixes.len() - index,
    {
        assert(prefixes.take(index + 1).drop_last() =~= prefixes.take(index as int));
        let (prefix, info) = *slaac.prefix.get(index);
        if info.is_valid(now) {
            if let Some(address) = from_link_prefix(&prefix, hardware_addr) {
                match find_cidr(addrs, address) {
                    Some(i) => {
                        let existing = *addrs.get(i);
                        if existing.origin == AddrOrigin::Slaac {
                            // One we installed: refresh it rather than leave it
                            // behind. The router shortens a prefix's preferred
                            // lifetime to retire it, and the address formed from
                            // it has to follow.
                            addrs.set(
                                i,
                                IfaceAddr {
                                    preferred_until: Some(info.preferred_until),
                                    ..existing
                                },
                            );
                        }
                    },
                    None => {
                        let new_addr = IfaceAddr {
                            cidr: IpCidr::Ipv6(address),
                            origin: AddrOrigin::Slaac,
                            preferred_until: Some(info.preferred_until),
                        };
                        let _ = addrs.push(new_addr);
                    },
                }
            }
        }
        index += 1;
    }
    assert(prefixes.take(index as int) =~= prefixes);
}

/// Whether an address was formed from a prefix, under whichever hardware address.
fn is_formed_under(prefix: &Ipv6Cidr, address: &Ipv6Address) -> (r: bool)
    ensures
        r == formed_under(*prefix, *address),
{
    prefix.prefix_len() == 64 && address.bits / 0x1_0000_0000_0000_0000 == prefix.address().bits
        / 0x1_0000_0000_0000_0000
}

/// Whether an address of SLAAC's was formed from a prefix that has expired.
fn is_expired_addr(addr: &IfaceAddr, slaac: &Slaac, now: Instant) -> (r: bool)
    ensures
        r == addr_expired(*addr, slaac@.prefix, now),
{
    if addr.origin != AddrOrigin::Slaac {
        return false;
    }
    let address = match addr.cidr {
        IpCidr::Ipv6(cidr) => cidr.address(),
        IpCidr::Ipv4(_) => {
            return false;
        },
    };
    let mut index: usize = 0;
    while index < slaac.prefix.len()
        invariant
            addr.origin == AddrOrigin::Slaac,
            addr.cidr matches IpCidr::Ipv6(cidr) && cidr.address == address,
            index <= slaac@.prefix.len(),
            forall|i: int|
                0 <= i < index ==> (#[trigger] slaac@.prefix[i]).1.valid(now) || !formed_under(
                    slaac@.prefix[i].0,
                    address,
                ),
        decreases slaac@.prefix.len() - index,
    {
        let (prefix, info) = *slaac.prefix.get(index);
        if !info.is_valid(now) && is_formed_under(&prefix, &address) {
            assert(!slaac@.prefix[index as int].1.valid(now));
            return true;
        }
        index += 1;
    }
    false
}

/// Whether a route of the table was learned and has expired.
fn is_expired_route(route: &Route, slaac: &Slaac, iface: IfaceHandle, now: Instant) -> (r: bool)
    ensures
        r == route_expired(*route, slaac@.routes, iface, now),
{
    let mut index: usize = 0;
    while index < slaac.routes.len()
        invariant
            index <= slaac@.routes.len(),
            forall|i: int|
                0 <= i < index ==> (#[trigger] slaac@.routes[i]).valid(now) || !is_slaac_route(
                    *route,
                    iface,
                    slaac@.routes[i].cidr,
                    slaac@.routes[i].via_router,
                ),
        decreases slaac@.routes.len() - index,
    {
        let learned = slaac.routes.get(index);
        if !learned.is_valid(now) && is_route_for(route, iface, learned) {
            assert(!slaac@.routes[index as int].valid(now));
            return true;
        }
        index += 1;
    }
    false
}

/// Whether a route of the table is the one of SLAAC's for a learned route.
fn is_route_for(route: &Route, iface: IfaceHandle, learned: &LearnedRoute) -> (r: bool)
    ensures
        r == is_slaac_route(*route, iface, learned.cidr, learned.via_router),
{
    if route.origin != RouteOrigin::Slaac || route.iface != iface {
        return false;
    }
    match (route.cidr, route.via_router) {
        (IpCidr::Ipv6(cidr), IpAddress::Ipv6(via_router)) => learned.same_route(&cidr, &via_router),
        _ => false,
    }
}

/// Where the route of SLAAC's for a learned route is in the table.
fn find_learned(routes: &Routes, iface: IfaceHandle, learned: &LearnedRoute) -> (index: Option<
    usize,
>)
    ensures
        index is Some <==> position(routes@, is_route_of(*learned, iface)) is Some,
        index matches Some(i) ==> i < routes@.len() && position(
            routes@,
            is_route_of(*learned, iface),
        ) == Some(i as int),
{
    let ghost p = is_route_of(*learned, iface);
    let mut index: usize = 0;
    while index < routes.list.len()
        invariant
            index <= routes@.len(),
            p == is_route_of(*learned, iface),
            forall|i: int| 0 <= i < index ==> !p(#[trigger] routes@[i]),
        decreases routes@.len() - index,
    {
        if is_route_for(routes.list.get(index), iface, learned) {
            proof {
                lemma_position_is(routes@, p, index as int);
            }
            return Some(index);
        }
        index += 1;
    }
    proof {
        lemma_position_none(routes@, p);
    }
    None
}

/// Put the valid learned routes into the table.
fn install_routes(routes: &mut Routes, slaac: &Slaac, iface: IfaceHandle, now: Instant)
    requires
        slaac@.wf(),
    ensures
        final(routes)@ == with_learned_routes(old(routes)@, slaac@.routes, iface, now),
        old(routes).wf() ==> final(routes).wf(),
{
    let ghost all = slaac@.routes;
    let mut index: usize = 0;
    assert(all.take(0) =~= Seq::empty());
    while index < slaac.routes.len()
        invariant
            slaac@.wf(),
            all == slaac@.routes,
            index <= all.len(),
            routes@ == with_learned_routes(old(routes)@, all.take(index as int), iface, now),
            old(routes).wf() ==> routes.wf(),
        decreases all.len() - index,
    {
        assert(all.take(index + 1).drop_last() =~= all.take(index as int));
        let learned = *slaac.routes.get(index);
        assert(all[index as int].cidr.wf());
        if learned.is_valid(now) {
            match find_learned(routes, iface, &learned) {
                Some(i) => {
                    let existing = *routes.list.get(i);
                    routes.list.set(
                        i,
                        Route { expires_at: Some(learned.valid_until), ..existing },
                    );
                },
                None => {
                    let new_route = Route {
                        cidr: IpCidr::Ipv6(learned.cidr),
                        via_router: IpAddress::Ipv6(learned.via_router),
                        iface,
                        origin: RouteOrigin::Slaac,
                        preferred_until: None,
                        expires_at: Some(learned.valid_until),
                    };
                    let _ = routes.add(new_route);
                },
            }
        }
        index += 1;
    }
    assert(all.take(index as int) =~= all);
}

/// Leaving routes out keeps the table in order.
proof fn lemma_filter_routes_wf(routes: Seq<Route>, p: spec_fn(Route) -> bool)
    requires
        forall|i: int| 0 <= i < routes.len() ==> (#[trigger] routes[i]).cidr.wf(),
    ensures
        forall|k: int| 0 <= k < routes.filter(p).len() ==> (#[trigger] routes.filter(p)[k]).cidr.wf(),
{
    assert forall|k: int| 0 <= k < routes.filter(p).len() implies (
    #[trigger] routes.filter(p)[k]).cidr.wf() by {
        lemma_filter_from(routes, p, k);
        let i = choose|i: int| 0 <= i < routes.len() && #[trigger] routes[i] == routes.filter(p)[k];
        assert(routes[i].cidr.wf());
    }
}

/// Leaving addresses out keeps them in order.
pub proof fn lemma_filter_addrs_wf(addrs: Seq<IfaceAddr>, p: spec_fn(IfaceAddr) -> bool)
    requires
        addrs_wf(addrs),
    ensures
        addrs_wf(addrs.filter(p)),
{
    assert forall|k: int| 0 <= k < addrs.filter(p).len() implies (
    #[trigger] addrs.filter(p)[k]).cidr.wf() by {
        lemma_filter_from(addrs, p, k);
        let i = choose|i: int| 0 <= i < addrs.len() && #[trigger] addrs[i] == addrs.filter(p)[k];
        assert(addrs[i].cidr.wf());
    }
}

/// The interface after SLAAC was turned off.
pub open spec fn reset_iface(iface: IfaceView) -> IfaceView {
    if iface.slaac is None {
        iface
    } else {
        (IfaceView {
            ip_addrs: iface.ip_addrs.filter(
                |addr: IfaceAddr| addr.origin != AddrOrigin::Slaac,
            ),
            slaac: None,
            ..iface
        }).changed()
    }
}

/// Whether SLAAC has assigned an address to the interface.
pub open spec fn has_slaac_addr(addrs: Seq<IfaceAddr>) -> bool {
    exists|i: int| 0 <= i < addrs.len() && (#[trigger] addrs[i]).origin == AddrOrigin::Slaac
}

/// What the interfaces share after SLAAC was turned off on one: its routes are
/// gone, and if it had addresses, what is known of its link is forgotten.
pub open spec fn reset_inner(inner: InnerView, iface: IfaceView) -> InnerView {
    if iface.slaac is None {
        inner
    } else {
        let kept = InnerView {
            routes: inner.routes.filter(
                |route: Route|
                    !(route.origin == RouteOrigin::Slaac && route.iface == iface.handle),
            ),
            ..inner
        };
        if has_slaac_addr(iface.ip_addrs) {
            kept.with_work(LinkWorkView::Purge { iface: iface.handle })
        } else {
            kept
        }
    }
}

impl<D> IfaceState<D> {
    /// Process a router advertisement that passed the NDISC validity checks.
    pub fn slaac_process_advertisement(
        &mut self,
        inner: &mut StackInner,
        src_addr: Ipv6Address,
        advert: &RouterAdvert<'_>,
    )
        requires
            old(self)@.wf(),
            advert.wf(),
            old(self)@.slaac is Some && advert.option_list() is Some ==> SlaacView::ends_in_time(
                advert.lifetime(),
                prefixes_among(advert.option_list()->0),
                old(inner).now,
            ),
        ensures
            final(self)@.wf(),
            final(inner).routes == old(inner).routes,
            old(inner).wf() ==> final(inner).wf(),
            old(self)@.slaac is None || advert.option_list() is None ==> {
                &&& final(self)@ == old(self)@
                &&& final(inner)@ == old(inner)@
            },
            old(self)@.slaac is Some && advert.option_list() is Some ==> {
                let options = advert.option_list()->0;
                let learned = match link_layer_addr_among(options, None) {
                    Some(data) => link_layer_addr(data, old(self)@.medium),
                    None => None,
                };
                &&& final(self)@ == (IfaceView {
                    slaac: Some(
                        old(self)@.slaac->0.advertised(
                            src_addr,
                            advert.flags(),
                            advert.lifetime(),
                            prefixes_among(options),
                            old(inner).now,
                        ),
                    ),
                    ..old(self)@
                })
                &&& final(inner)@ == if learned is Some && learned->0.unicast() {
                    old(inner)@.with_work(
                        LinkWorkView::FillNeighbor {
                            iface: old(self)@.handle,
                            addr: IpAddress::Ipv6(src_addr),
                            hardware_addr: learned->0,
                        },
                    )
                } else {
                    old(inner)@
                }
            },
    {
        let mut slaac = match self.slaac.take() {
            Some(slaac) => slaac,
            None => {
                return ;
            },
        };
        // All the options have to be whole.
        let options = match advert.options() {
            Some(options) => options,
            None => {
                self.slaac = Some(slaac);
                return ;
            },
        };
        proof {
            lemma_advertised_wf(
                slaac@,
                src_addr,
                advert.flags(),
                advert.lifetime(),
                options.prefixes@,
                inner.now,
            );
        }
        slaac.process_advertisement(
            &src_addr,
            advert.router_flags(),
            advert.router_lifetime(),
            options.prefixes.as_slice(),
            inner.now,
        );
        self.slaac = Some(slaac);
        if let Some(data) = options.link_layer_addr {
            if let Some(lladdr) = parse_link_layer_addr(data, self.medium()) {
                if lladdr.is_unicast() {
                    inner.fill_neighbor(self.handle, IpAddress::Ipv6(src_addr), lladdr);
                }
            }
        }
    }

    /// Synchronize the slaac address and router state with the interface state.
    pub fn sync_slaac_state(&mut self, inner: &mut StackInner)
        requires
            old(self)@.wf(),
            old(inner).wf(),
        ensures
            final(self)@ == synced_iface(old(self)@, old(inner).now),
            final(inner)@ == synced_inner(old(inner)@, old(self)@),
            final(self)@.wf(),
            final(inner).wf(),
    {
        let now = inner.now;
        let hardware_addr = self.hardware_addr;
        let handle = self.handle;
        let mut slaac = match self.slaac.take() {
            Some(slaac) => slaac,
            None => {
                return ;
            },
        };
        // Addresses come and go without touching the link state: the router that
        // advertised the prefix has just been entered into the neighbor cache.
        install_addrs(&mut self.ip_addrs, &slaac, hardware_addr, now);
        let ghost installed = self.ip_addrs@;
        let ghost kept_addr = addr_kept(slaac@.prefix, now);
        let learned = &slaac;
        let keep_addr = |addr: &IfaceAddr| -> (r: bool)
            ensures
                r == kept_addr(*addr),
            { !is_expired_addr(addr, learned, now) };
        self.ip_addrs.retain(keep_addr, Ghost(kept_addr));
        let ghost kept_route = route_kept(slaac@.routes, handle, now);
        let keep_route = |route: &Route| -> (r: bool)
            ensures
                r == kept_route(*route),
            { !is_expired_route(route, learned, handle, now) };
        proof {
            lemma_filter_addrs_wf(installed, kept_addr);
            lemma_filter_routes_wf(inner.routes@, kept_route);
        }
        inner.routes.list.retain(keep_route, Ghost(kept_route));
        install_routes(&mut inner.routes, &slaac, handle, now);
        proof {
            lemma_updated_wf(slaac@, now);
        }
        slaac.update_slaac_state(now);
        self.slaac = Some(slaac);
        self.config_changed();
    }

    /// Turn SLAAC off: remove the addresses and routes it installed.
    pub fn slaac_reset(&mut self, inner: &mut StackInner)
        requires
            old(self)@.wf(),
            old(inner).wf(),
        ensures
            final(self)@ == reset_iface(old(self)@),
            final(inner)@ == reset_inner(old(inner)@, old(self)@),
            final(self)@.wf(),
            final(inner).wf(),
    {
        if self.slaac.is_none() {
            return ;
        }
        self.slaac = None;
        let ghost others = |addr: IfaceAddr| addr.origin != AddrOrigin::Slaac;
        let ghost all = self.ip_addrs@;
        let before: usize = self.ip_addrs.len();
        let keep_addr = |addr: &IfaceAddr| -> (r: bool)
            ensures
                r == (addr.origin != AddrOrigin::Slaac),
            { addr.origin != AddrOrigin::Slaac };
        self.ip_addrs.retain(keep_addr, Ghost(others));
        let handle = self.handle;
        let ghost other_routes = |route: Route|
            !(route.origin == RouteOrigin::Slaac && route.iface == handle);
        proof {
            crate::lists::lemma_filter_drops(all, others);
            lemma_filter_addrs_wf(all, others);
            lemma_filter_routes_wf(inner.routes@, other_routes);
        }
        if self.ip_addrs.len() != before {
            inner.purge_iface_link_state(self.handle);
        }
        let keep_route = |route: &Route| -> (r: bool)
            ensures
                r == !(route.origin == RouteOrigin::Slaac && route.iface == handle),
            { !(route.origin == RouteOrigin::Slaac && route.iface == handle) };
        inner.routes.list.retain(keep_route, Ghost(other_routes));
        self.config_changed();
    }
}

} // verus!

//! The routing table.

use crate::config::ROUTE_COUNT;
use crate::iface::{IfaceBinding, IfaceHandle};
use crate::storage::{BoundedVec, Full};
use crate::time::Instant;
use crate::wire::{IpAddress, IpCidr};
use vstd::prelude::*;

verus! {

/// Where a route came from.
#[derive(Clone, Copy, PartialEq, Eq, Structural, Debug)]
pub enum RouteOrigin {
    /// Added by the application.
    Manual,
    /// Learned from a DHCPv4 lease.
    Dhcpv4,
    /// Learned from a router advertisement.
    Slaac,
}

/// A route: the subnet it leads to, the router, and the interface the router is
/// reached through.
#[derive(Clone, Copy, PartialEq, Eq, Structural, Debug)]
pub struct Route {
    pub cidr: IpCidr,
    pub via_router: IpAddress,
    pub iface: IfaceHandle,
    pub origin: RouteOrigin,
    pub preferred_until: Option<Instant>,
    pub expires_at: Option<Instant>,
}

impl Route {
    /// Whether the route can be taken to `addr`, out of an interface of the
    /// binding.
    pub open spec fn leads_to(self, addr: IpAddress, binding: IfaceBinding, now: Instant) -> bool {
        &&& binding.admits(self.iface)
        &&& self.cidr.covers(addr)
        &&& self.expires_at matches Some(at) ==> now.micros < at.micros
    }

    /// Whether the route can be taken to `addr`, out of an interface of the
    /// binding.
    pub fn is_for(&self, addr: &IpAddress, binding: IfaceBinding, now: Instant) -> (r: bool)
        requires
            self.cidr.wf(),
        ensures
            r == self.leads_to(*addr, binding, now),
    {
        let running: bool = match self.expires_at {
            Some(at) => now.micros < at.micros,
            None => true,
        };
        running && binding.matches(self.iface) && self.cidr.contains_addr(addr)
    }
}

/// Whether the route at `i` is the one to take: of those that lead to `addr`, the
/// last one with the longest prefix.
pub open spec fn is_best_route(
    routes: Seq<Route>,
    addr: IpAddress,
    binding: IfaceBinding,
    now: Instant,
    i: int,
) -> bool {
    &&& 0 <= i < routes.len()
    &&& routes[i].leads_to(addr, binding, now)
    &&& forall|j: int|
        0 <= j < routes.len() && (#[trigger] routes[j]).leads_to(addr, binding, now)
            ==> routes[j].cidr.prefix() <= routes[i].cidr.prefix() && (j > i
            ==> routes[j].cidr.prefix() < routes[i].cidr.prefix())
}

/// The route to take to `addr`, out of an interface of the binding.
pub open spec fn best_route(
    routes: Seq<Route>,
    addr: IpAddress,
    binding: IfaceBinding,
    now: Instant,
) -> Option<Route> {
    if exists|i: int| is_best_route(routes, addr, binding, now, i) {
        Some(routes[choose|i: int| is_best_route(routes, addr, binding, now, i)])
    } else {
        None
    }
}

/// Only one route is the one to take.
pub proof fn lemma_best_route(
    routes: Seq<Route>,
    addr: IpAddress,
    binding: IfaceBinding,
    now: Instant,
    i: int,
)
    requires
        is_best_route(routes, addr, binding, now, i),
    ensures
        best_route(routes, addr, binding, now) == Some(routes[i]),
{
    let found = choose|i: int| is_best_route(routes, addr, binding, now, i);
    assert(routes[found].leads_to(addr, binding, now));
    assert(routes[i].leads_to(addr, binding, now));
}

/// The routing table.
#[derive(Debug)]
pub struct Routes {
    pub list: BoundedVec<Route, ROUTE_COUNT>,
}

impl View for Routes {
    type V = Seq<Route>;

    open spec fn view(&self) -> Seq<Route> {
        self.list@
    }
}

impl Routes {
    /// The routes fit in the table, and every one is to a subnet whose prefix is no
    /// longer than an address.
    pub open spec fn wf(self) -> bool {
        &&& self@.len() <= ROUTE_COUNT
        &&& forall|i: int| 0 <= i < self@.len() ==> (#[trigger] self@[i]).cidr.wf()
    }

    /// An empty table.
    pub fn new() -> (routes: Routes)
        ensures
            routes@ == Seq::<Route>::empty(),
            routes.wf(),
    {
        Routes { list: BoundedVec::new() }
    }

    /// Add a route.
    pub fn add(&mut self, route: Route) -> (result: Result<(), Full>)
        ensures
            old(self)@.len() < ROUTE_COUNT ==> result is Ok && final(self)@ == old(self)@.push(
                route,
            ),
            old(self)@.len() >= ROUTE_COUNT ==> result is Err && final(self)@ == old(self)@,
            old(self).wf() && route.cidr.wf() ==> final(self).wf(),
    {
        match self.list.push(route) {
            Ok(()) => Ok(()),
            Err(_) => Err(Full),
        }
    }

    /// The route to take to `addr`, out of an interface of the binding.
    pub fn lookup(&self, addr: &IpAddress, binding: IfaceBinding, now: Instant) -> (route: Option<
        Route,
    >)
        requires
            self.wf(),
        ensures
            route == best_route(self@, *addr, binding, now),
    {
        let mut best: Option<usize> = None;
        let mut index: usize = 0;
        let len: usize = self.list.len();
        while index < len
            invariant
                self.wf(),
                len == self@.len(),
                index <= len,
                best matches Some(b) ==> b < index && is_best_route(
                    self@.take(index as int),
                    *addr,
                    binding,
                    now,
                    b as int,
                ),
                best is None ==> forall|i: int|
                    0 <= i < index ==> !(#[trigger] self@[i]).leads_to(*addr, binding, now),
            decreases len - index,
        {
            let route = self.list.get(index);
            if route.is_for(addr, binding, now) {
                let replace: bool = match best {
                    Some(b) => self.list.get(b).cidr.prefix_len() <= route.cidr.prefix_len(),
                    None => true,
                };
                if replace {
                    best = Some(index);
                }
            }
            proof {
                let before = self@.take(index as int);
                let after = self@.take(index + 1);
                assert(forall|i: int| 0 <= i < index ==> after[i] == before[i]);
                assert(after[index as int] == self@[index as int]);
            }
            index += 1;
        }
        assert(self@.take(index as int) =~= self@);
        match best {
            Some(b) => {
                proof {
                    lemma_best_route(self@, *addr, binding, now, b as int);
                }
                Some(*self.list.get(b))
            },
            None => None,
        }
    }
}

} // verus!

//! IPv6 stateless address autoconfiguration (SLAAC), built into the interface.
//!
//! Turn it on per interface with [`Iface::set_slaac`](super::Iface::set_slaac).
//! The stack then sends router solicitations, and from the router advertisements
//! it receives it forms addresses (EUI-64 from the hardware address) and installs
//! default routes on the interface. Both expire with the lifetimes the router
//! advertised.

use super::{first_half, ipv6_from_halves};
use crate::config::{SLAAC_PREFIX_COUNT, SLAAC_ROUTER_COUNT};
use crate::lists::{
    lemma_filter_from, lemma_position, lemma_position_is, lemma_position_none, position,
};
use crate::storage::BoundedVec;
use crate::time::{Clock, Duration, Instant};
use crate::wire::ndisc::{NdiscRouterFlags, PrefixInformation};
use crate::wire::{HardwareAddress, Ipv6Address, Ipv6Cidr};
use vstd::prelude::*;

verus! {

/// How many router solicitations are sent without an answer.
pub const MAX_RTR_SOLICITATIONS: u8 = 3;

/// The time between router solicitations, in seconds.
pub const RTR_SOLICITATION_INTERVAL: u64 = 4;

/// SLAAC configuration, passed to [`Iface::set_slaac`](super::Iface::set_slaac).
///
/// There are no knobs yet. Use `SlaacConfig::default()`.
#[derive(Clone, Copy, PartialEq, Eq, Structural, Debug)]
#[non_exhaustive]
pub struct SlaacConfig {}

impl Default for SlaacConfig {
    fn default() -> (config: SlaacConfig)
        ensures
            config == (SlaacConfig {  }),
    {
        SlaacConfig {  }
    }
}

/// What SLAAC has learned from the routers on the link, for the application.
///
/// The addresses and routes themselves are on the interface, see
/// [`Iface::ip_addrs`](super::Iface::ip_addrs), and in the routing table.
#[derive(Clone, Copy, PartialEq, Eq, Structural, Debug)]
#[non_exhaustive]
pub struct SlaacState {
    /// At least one router advertisement was received.
    pub routers_seen: bool,
    /// The last router advertisement had the "managed address configuration"
    /// flag set: addresses are available through DHCPv6.
    pub managed: bool,
    /// The last router advertisement had the "other configuration" flag set:
    /// other configuration (like DNS servers) is available through DHCPv6.
    pub other_config: bool,
}

impl SlaacState {
    /// Nothing was learned yet.
    pub open spec fn nothing() -> SlaacState {
        SlaacState { routers_seen: false, managed: false, other_config: false }
    }
}

impl Default for SlaacState {
    fn default() -> (state: SlaacState)
        ensures
            state == Self::nothing(),
    {
        SlaacState { routers_seen: false, managed: false, other_config: false }
    }
}

/// Router solicitation state machine
#[derive(Clone, Copy, PartialEq, Eq, Structural, Debug)]
pub enum Phase {
    /// No solicitation was sent yet.
    Start,
    /// Solicitations were sent and no router answered yet.
    Discovering,
    /// A router answered.
    Maintaining,
    /// No router answered.
    GaveUp,
}

/// A prefix of addresses received via router advertisements
#[derive(Clone, Copy, PartialEq, Eq, Structural, Debug)]
pub struct Route {
    /// IPv6 cidr to route
    pub cidr: Ipv6Cidr,
    /// Router, origin of the advertisement
    pub via_router: Ipv6Address,
    /// Valid lifetime of the route
    pub valid_until: Instant,
}

impl Route {
    /// Whether this is the route to `cidr` through `via_router`.
    pub open spec fn is_route(self, cidr: Ipv6Cidr, via_router: Ipv6Address) -> bool {
        self.cidr == cidr && self.via_router == via_router
    }

    /// Whether the route is still valid.
    pub open spec fn valid(self, now: Instant) -> bool {
        self.valid_until.micros > now.micros
    }

    /// Compare this route based on the prefix and the next hop router.
    pub fn same_route(&self, cidr: &Ipv6Cidr, via_router: &Ipv6Address) -> (r: bool)
        ensures
            r == self.is_route(*cidr, *via_router),
    {
        self.cidr == *cidr && self.via_router == *via_router
    }

    /// Get whether the route is still valid.
    pub fn is_valid(&self, now: Instant) -> (r: bool)
        ensures
            r == self.valid(now),
    {
        self.valid_until.micros > now.micros
    }
}

/// Info associated with a prefix
#[derive(Clone, Copy, PartialEq, Eq, Structural, Debug)]
pub struct PrefixInfo {
    pub preferred_until: Instant,
    pub valid_until: Instant,
}

impl PrefixInfo {
    /// Whether the prefix is still valid.
    pub open spec fn valid(self, now: Instant) -> bool {
        self.valid_until.micros > now.micros
    }

    /// What a prefix information option received at `now` says.
    pub open spec fn of(prefix: PrefixInformation, now: Instant) -> PrefixInfo {
        PrefixInfo {
            preferred_until: now.plus(prefix.preferred_lifetime),
            valid_until: now.plus(prefix.valid_lifetime),
        }
    }

    /// The info of a prefix that is over.
    pub open spec fn over() -> PrefixInfo {
        PrefixInfo { preferred_until: Instant { micros: 0 }, valid_until: Instant { micros: 0 } }
    }

    /// A prefix with these lifetimes.
    pub fn new(preferred_until: Instant, valid_until: Instant) -> (info: PrefixInfo)
        ensures
            info == (PrefixInfo { preferred_until, valid_until }),
    {
        PrefixInfo { preferred_until, valid_until }
    }

    /// Derive the prefix information from the neighbor discovery option.
    pub fn from_prefix(prefix: &PrefixInformation, now: Instant) -> (info: PrefixInfo)
        requires
            now.can_add(prefix.preferred_lifetime),
            now.can_add(prefix.valid_lifetime),
        ensures
            info == Self::of(*prefix, now),
    {
        let preferred_until = now.after(prefix.preferred_lifetime);
        let valid_until = now.after(prefix.valid_lifetime);
        Self::new(preferred_until, valid_until)
    }

    /// Get whether the prefix is still valid.
    pub fn is_valid(&self, now: Instant) -> (r: bool)
        ensures
            r == self.valid(now),
    {
        self.valid_until.micros > now.micros
    }
}

impl PrefixInformation {
    /// Whether addresses may be formed from the prefix: checks a, b and c of
    /// RFC 4862 section 5.5.3, and the prefix is not multicast nor too long.
    pub open spec fn acceptable(self) -> bool {
        &&& self.prefix_len <= 128
        &&& self.flags.has_addrconf()
        &&& !self.prefix.link_local()
        &&& !self.prefix.in_multicast()
        &&& self.preferred_lifetime.micros <= self.valid_lifetime.micros
    }

    /// Validates the prefix information option against check a, b, c in
    /// <https://www.rfc-editor.org/rfc/rfc4862#section-5.5.3>
    ///
    /// Also rejects multicast prefixes, which would form a multicast address.
    /// The RFC leaves that to the address architecture; Linux ignores them too.
    /// And prefix lengths over 128, which RFC 4861 section 4.6.2 rules out.
    pub fn is_valid_prefix_info(&self) -> (r: bool)
        ensures
            r == self.acceptable(),
    {
        self.prefix_len <= 128 && self.flags.addrconf() && !self.prefix.is_link_local()
            && !self.prefix.is_multicast() && self.preferred_lifetime.micros
            <= self.valid_lifetime.micros
    }
}

/// SLAAC runtime state
///
/// Tracks router solicitations and collects information from all received
/// router advertisements.
///
/// State must be synchronized with the IP addresses and routes in the interface.
#[derive(Debug)]
pub struct Slaac {
    /// Set of prefixes received.
    pub prefix: BoundedVec<(Ipv6Cidr, PrefixInfo), SLAAC_PREFIX_COUNT>,
    /// Set of routes received.
    pub routes: BoundedVec<Route, SLAAC_ROUTER_COUNT>,
    /// Router discovery phase.
    pub phase: Phase,
    /// Signal for address and route updates.
    pub sync_required: bool,
    /// Time to next router solicitation.
    pub retry_rs_at: Instant,
    /// Number of solicitations left to be emitted.
    pub num_solicitations: u8,
    /// What the application can see.
    pub state: SlaacState,
    pub config: SlaacConfig,
}

/// The state of SLAAC.
#[verifier::ext_equal]
pub struct SlaacView {
    pub prefix: Seq<(Ipv6Cidr, PrefixInfo)>,
    pub routes: Seq<Route>,
    pub phase: Phase,
    pub sync_required: bool,
    pub retry_rs_at: Instant,
    pub num_solicitations: u8,
    pub state: SlaacState,
    pub config: SlaacConfig,
}

impl View for Slaac {
    type V = SlaacView;

    open spec fn view(&self) -> SlaacView {
        SlaacView {
            prefix: self.prefix@,
            routes: self.routes@,
            phase: self.phase,
            sync_required: self.sync_required,
            retry_rs_at: self.retry_rs_at,
            num_solicitations: self.num_solicitations,
            state: self.state,
            config: self.config,
        }
    }
}

/// Whether an entry is of the prefix `cidr`.
pub open spec fn of_prefix(cidr: Ipv6Cidr) -> spec_fn((Ipv6Cidr, PrefixInfo)) -> bool {
    |entry: (Ipv6Cidr, PrefixInfo)| entry.0 == cidr
}

/// Where `cidr` is among the prefixes.
pub open spec fn prefix_position(
    prefix: Seq<(Ipv6Cidr, PrefixInfo)>,
    cidr: Ipv6Cidr,
) -> Option<int> {
    position(prefix, of_prefix(cidr))
}

/// Where the route to `cidr` through `router` is among the routes.
pub open spec fn route_position(
    routes: Seq<Route>,
    cidr: Ipv6Cidr,
    router: Ipv6Address,
) -> Option<int> {
    position(routes, |route: Route| route.is_route(cidr, router))
}

/// The default route's subnet, `::/0`.
pub open spec fn ipv6_default() -> Ipv6Cidr {
    Ipv6Cidr { address: Ipv6Address::any(), prefix_len: 0 }
}

/// The instants at which prefixes end.
pub open spec fn prefix_ends(prefix: Seq<(Ipv6Cidr, PrefixInfo)>) -> Seq<Instant> {
    prefix.map_values(|entry: (Ipv6Cidr, PrefixInfo)| entry.1.valid_until)
}

/// The instants at which routes end.
pub open spec fn route_ends(routes: Seq<Route>) -> Seq<Instant> {
    routes.map_values(|route: Route| route.valid_until)
}

/// The clock once it was asked about each of the deadlines.
pub open spec fn asked_all(clock: Clock, deadlines: Seq<Instant>) -> Clock
    decreases deadlines.len(),
{
    if deadlines.len() == 0 {
        clock
    } else {
        asked_all(clock, deadlines.drop_last()).asked(deadlines.last())
    }
}

/// Whether one of the deadlines has passed.
pub open spec fn some_passed(clock: Clock, deadlines: Seq<Instant>) -> bool {
    exists|i: int| 0 <= i < deadlines.len() && clock.has_passed(#[trigger] deadlines[i])
}

impl SlaacView {
    /// The prefixes and routes fit in their tables, and every route is to a subnet
    /// whose prefix is no longer than an address.
    pub open spec fn wf(self) -> bool {
        &&& self.prefix.len() <= SLAAC_PREFIX_COUNT
        &&& self.routes.len() <= SLAAC_ROUTER_COUNT
        &&& forall|i: int| 0 <= i < self.routes.len() ==> (#[trigger] self.routes[i]).cidr.wf()
    }

    /// Whether the lifetimes that are taken over from an advertisement end at
    /// representable instants.
    pub open spec fn ends_in_time(
        lifetime: Duration,
        prefixes: Seq<PrefixInformation>,
        now: Instant,
    ) -> bool {
        &&& now.can_add(lifetime)
        &&& forall|i: int|
            0 <= i < prefixes.len() && (#[trigger] prefixes[i]).acceptable() ==> now.can_add(
                prefixes[i].valid_lifetime,
            )
    }

    /// SLAAC just turned on.
    pub open spec fn started(config: SlaacConfig) -> SlaacView {
        SlaacView {
            prefix: Seq::empty(),
            routes: Seq::empty(),
            phase: Phase::Start,
            sync_required: false,
            retry_rs_at: Instant { micros: 0 },
            num_solicitations: MAX_RTR_SOLICITATIONS,
            state: SlaacState::nothing(),
            config,
        }
    }

    /// A prefix was advertised: its lifetimes are taken over. A new one is
    /// forgotten if there is no room.
    pub open spec fn with_prefix(self, cidr: Ipv6Cidr, info: PrefixInfo) -> SlaacView {
        if cidr.address.link_local() {
            self
        } else {
            match prefix_position(self.prefix, cidr) {
                Some(i) => SlaacView {
                    prefix: self.prefix.update(i, (self.prefix[i].0, info)),
                    sync_required: true,
                    ..self
                },
                None => if self.prefix.len() < SLAAC_PREFIX_COUNT {
                    SlaacView {
                        prefix: self.prefix.push((cidr, info)),
                        sync_required: true,
                        ..self
                    }
                } else {
                    self
                },
            }
        }
    }

    /// A prefix was advertised as over.
    pub open spec fn without_prefix(self, cidr: Ipv6Cidr) -> SlaacView {
        match prefix_position(self.prefix, cidr) {
            Some(i) => SlaacView {
                prefix: self.prefix.update(i, (self.prefix[i].0, PrefixInfo::over())),
                sync_required: true,
                ..self
            },
            None => self,
        }
    }

    /// A router was advertised. A new one is forgotten if there is no room.
    pub open spec fn with_route(
        self,
        cidr: Ipv6Cidr,
        router: Ipv6Address,
        valid_until: Instant,
    ) -> SlaacView {
        match route_position(self.routes, cidr, router) {
            Some(i) => SlaacView {
                routes: self.routes.update(i, Route { valid_until, ..self.routes[i] }),
                sync_required: true,
                ..self
            },
            None => if self.routes.len() < SLAAC_ROUTER_COUNT {
                SlaacView {
                    routes: self.routes.push(Route { cidr, via_router: router, valid_until }),
                    sync_required: true,
                    ..self
                }
            } else {
                self
            },
        }
    }

    /// A router advertised itself as over.
    pub open spec fn without_route(self, cidr: Ipv6Cidr, router: Ipv6Address) -> SlaacView {
        SlaacView {
            routes: self.routes.map_values(
                |route: Route|
                    if route.is_route(cidr, router) {
                        Route { valid_until: Instant { micros: 0 }, ..route }
                    } else {
                        route
                    },
            ),
            sync_required: self.sync_required || exists|i: int|
                0 <= i < self.routes.len() && (#[trigger] self.routes[i]).is_route(cidr, router),
            ..self
        }
    }

    /// A prefix information option was received.
    pub open spec fn told_prefix(self, prefix: PrefixInformation, now: Instant) -> SlaacView {
        let cidr = Ipv6Cidr { address: prefix.prefix, prefix_len: prefix.prefix_len };
        if !prefix.flags.has_addrconf() {
            self
        } else if prefix.valid_lifetime.micros > 0 {
            self.with_prefix(cidr, PrefixInfo::of(prefix, now))
        } else {
            self.without_prefix(cidr)
        }
    }

    /// Prefix information options were received, in order. Those that addresses
    /// may not be formed from are ignored.
    pub open spec fn told_prefixes(self, prefixes: Seq<PrefixInformation>, now: Instant) -> SlaacView
        decreases prefixes.len(),
    {
        if prefixes.len() == 0 {
            self
        } else {
            let before = self.told_prefixes(prefixes.drop_last(), now);
            if prefixes.last().acceptable() {
                before.told_prefix(prefixes.last(), now)
            } else {
                before
            }
        }
    }

    /// The default router of an advertisement was learned.
    pub open spec fn told_router(
        self,
        source: Ipv6Address,
        lifetime: Duration,
        now: Instant,
    ) -> SlaacView {
        if lifetime.micros > 0 {
            self.with_route(ipv6_default(), source, now.plus(lifetime))
        } else {
            self.without_route(ipv6_default(), source)
        }
    }

    /// A router advertisement was received.
    pub open spec fn advertised(
        self,
        source: Ipv6Address,
        flags: NdiscRouterFlags,
        lifetime: Duration,
        prefixes: Seq<PrefixInformation>,
        now: Instant,
    ) -> SlaacView {
        let told = self.told_prefixes(prefixes, now).told_router(source, lifetime, now);
        SlaacView {
            state: SlaacState {
                routers_seen: true,
                managed: flags.has_managed(),
                other_config: flags.has_other(),
            },
            // The advertisement might be unsolicited.
            phase: if told.phase == Phase::Discovering {
                Phase::Maintaining
            } else {
                told.phase
            },
            ..told
        }
    }

    /// Expired prefixes and routes were dropped.
    pub open spec fn updated(self, now: Instant) -> SlaacView {
        SlaacView {
            prefix: self.prefix.filter(|entry: (Ipv6Cidr, PrefixInfo)| entry.1.valid(now)),
            routes: self.routes.filter(|route: Route| route.valid(now)),
            sync_required: false,
            ..self
        }
    }

    /// Whether addresses and routes must be synchronized with the interface.
    pub open spec fn needs_sync(self, clock: Clock) -> bool {
        self.sync_required || some_passed(clock, prefix_ends(self.prefix)) || some_passed(
            clock,
            route_ends(self.routes),
        )
    }

    /// The clock once it was asked about every lifetime.
    pub open spec fn sync_clock(self, clock: Clock) -> Clock {
        asked_all(asked_all(clock, prefix_ends(self.prefix)), route_ends(self.routes))
    }

    /// When the next router solicitation is due, or never.
    pub open spec fn solicit_at(self) -> Instant {
        if (self.phase == Phase::Start || self.phase == Phase::Discovering)
            && self.num_solicitations > 0 {
            self.retry_rs_at
        } else {
            Instant::never()
        }
    }

    /// Solicitation starts again, keeping what was learned.
    pub open spec fn restarted(self) -> SlaacView {
        SlaacView {
            phase: Phase::Start,
            num_solicitations: MAX_RTR_SOLICITATIONS,
            retry_rs_at: Instant { micros: 0 },
            ..self
        }
    }

    /// Whether the next retry of a router solicitation that is sent now, if there is one,
    /// is at a representable instant.
    pub open spec fn retry_in_time(self, now: Instant) -> bool {
        (self.phase == Phase::Start || self.phase == Phase::Discovering)
            && self.retry_rs_at.micros <= now.micros && self.num_solicitations > 0
            ==> now.can_add(Duration::of_secs(RTR_SOLICITATION_INTERVAL as int))
    }

    /// A router solicitation was sent.
    pub open spec fn solicited(self, now: Instant) -> SlaacView {
        if (self.phase == Phase::Start || self.phase == Phase::Discovering)
            && self.retry_rs_at.micros <= now.micros {
            if self.num_solicitations == 0 {
                SlaacView { phase: Phase::GaveUp, ..self }
            } else {
                SlaacView {
                    num_solicitations: (self.num_solicitations - 1) as u8,
                    phase: Phase::Discovering,
                    retry_rs_at: now.plus(Duration::of_secs(RTR_SOLICITATION_INTERVAL as int)),
                    ..self
                }
            }
        } else {
            self
        }
    }
}

impl Slaac {
    /// SLAAC just turned on.
    pub fn new(config: SlaacConfig) -> (slaac: Slaac)
        ensures
            slaac@ == SlaacView::started(config),
    {
        Slaac {
            prefix: BoundedVec::new(),
            routes: BoundedVec::new(),
            phase: Phase::Start,
            sync_required: false,
            retry_rs_at: Instant::zero(),
            num_solicitations: MAX_RTR_SOLICITATIONS,
            state: SlaacState::default(),
            config,
        }
    }

    /// What the application can see.
    pub fn state(&self) -> (state: &SlaacState)
        ensures
            *state == self@.state,
    {
        &self.state
    }

    /// Get whether router advertisement information is updated.
    ///
    /// This flags whether new prefixes or routes have been received, or current prefixes and
    /// routes have expired.
    pub fn has_ra_update(&self) -> (r: bool)
        ensures
            r == self@.sync_required,
    {
        self.sync_required
    }

    /// Where `cidr` is among the prefixes.
    fn find_prefix(&self, cidr: &Ipv6Cidr) -> (index: Option<usize>)
        ensures
            index is Some <==> prefix_position(self@.prefix, *cidr) is Some,
            index matches Some(i) ==> i < self@.prefix.len() && prefix_position(
                self@.prefix,
                *cidr,
            ) == Some(i as int),
    {
        let ghost p = of_prefix(*cidr);
        let mut index: usize = 0;
        while index < self.prefix.len()
            invariant
                index <= self@.prefix.len(),
                p == of_prefix(*cidr),
                forall|i: int| 0 <= i < index ==> !p(#[trigger] self@.prefix[i]),
            decreases self@.prefix.len() - index,
        {
            if self.prefix.get(index).0 == *cidr {
                proof {
                    lemma_position_is(self@.prefix, p, index as int);
                }
                return Some(index);
            }
            index += 1;
        }
        proof {
            lemma_position_none(self@.prefix, p);
        }
        None
    }

    /// Where the route to `cidr` through `router` is among the routes.
    fn find_route(&self, cidr: &Ipv6Cidr, router: &Ipv6Address) -> (index: Option<usize>)
        ensures
            index is Some <==> route_position(self@.routes, *cidr, *router) is Some,
            index matches Some(i) ==> i < self@.routes.len() && route_position(
                self@.routes,
                *cidr,
                *router,
            ) == Some(i as int),
    {
        let ghost p = |route: Route| route.is_route(*cidr, *router);
        let mut index: usize = 0;
        while index < self.routes.len()
            invariant
                index <= self@.routes.len(),
                p == (|route: Route| route.is_route(*cidr, *router)),
                forall|i: int| 0 <= i < index ==> !p(#[trigger] self@.routes[i]),
            decreases self@.routes.len() - index,
        {
            if self.routes.get(index).same_route(cidr, router) {
                proof {
                    lemma_position_is(self@.routes, p, index as int);
                }
                return Some(index);
            }
            index += 1;
        }
        proof {
            lemma_position_none(self@.routes, p);
        }
        None
    }

    /// Take over the lifetimes of an advertised prefix.
    pub fn add_prefix(&mut self, cidr: &Ipv6Cidr, prefix: &PrefixInformation, now: Instant)
        requires
            !cidr.address.link_local() ==> {
                &&& now.can_add(prefix.preferred_lifetime)
                &&& now.can_add(prefix.valid_lifetime)
            },
        ensures
            final(self)@ == old(self)@.with_prefix(*cidr, PrefixInfo::of(*prefix, now)),
    {
        if cidr.address().is_link_local() {
            return ;
        }
        let prefix_info = PrefixInfo::from_prefix(prefix, now);
        match self.find_prefix(cidr) {
            Some(i) => {
                let known = self.prefix.get(i).0;
                self.prefix.set(i, (known, prefix_info));
            },
            None => if self.prefix.push((*cidr, prefix_info)).is_err() {
                return ;
            },
        }
        // A refreshed lifetime also syncs, so the expiry on the installed address
        // and route follows the latest advertisement.
        self.sync_required = true;
    }

    /// Note that a prefix is over.
    pub fn expire_prefix(&mut self, cidr: &Ipv6Cidr)
        ensures
            final(self)@ == old(self)@.without_prefix(*cidr),
    {
        if let Some(i) = self.find_prefix(cidr) {
            let known = self.prefix.get(i).0;
            self.prefix.set(i, (known, PrefixInfo::new(Instant::zero(), Instant::zero())));
            self.sync_required = true;
        }
    }

    /// Take over the lifetime of an advertised router.
    pub fn add_route(&mut self, cidr: &Ipv6Cidr, router: &Ipv6Address, valid_until: Instant)
        ensures
            final(self)@ == old(self)@.with_route(*cidr, *router, valid_until),
    {
        match self.find_route(cidr, router) {
            Some(i) => {
                let known = *self.routes.get(i);
                self.routes.set(i, Route { valid_until, ..known });
            },
            None => if self.routes.push(
                Route { cidr: *cidr, via_router: *router, valid_until },
            ).is_err() {
                return ;
            },
        }
        self.sync_required = true;
    }

    /// Note that a router is over.
    pub fn expire_route(&mut self, cidr: &Ipv6Cidr, via_router: &Ipv6Address)
        ensures
            final(self)@ == old(self)@.without_route(*cidr, *via_router),
    {
        let ghost end = |route: Route|
            if route.is_route(*cidr, *via_router) {
                Route { valid_until: Instant { micros: 0 }, ..route }
            } else {
                route
            };
        let ghost all = self.routes@;
        let ghost before = self@;
        let mut index: usize = 0;
        while index < self.routes.len()
            invariant
                index <= all.len(),
                self.routes@.len() == all.len(),
                all == before.routes,
                self@ == (SlaacView {
                    routes: self.routes@,
                    sync_required: self.sync_required,
                    ..before
                }),
                end == (|route: Route|
                    if route.is_route(*cidr, *via_router) {
                        Route { valid_until: Instant { micros: 0 }, ..route }
                    } else {
                        route
                    }),
                forall|i: int| 0 <= i < index ==> self.routes@[i] == end(#[trigger] all[i]),
                forall|i: int| index <= i < all.len() ==> self.routes@[i] == #[trigger] all[i],
                self.sync_required == (before.sync_required || exists|i: int|
                    0 <= i < index && (#[trigger] all[i]).is_route(*cidr, *via_router)),
            decreases all.len() - index,
        {
            let route = *self.routes.get(index);
            assert(route == all[index as int]);
            if route.same_route(cidr, via_router) {
                self.routes.set(index, Route { valid_until: Instant::zero(), ..route });
                self.sync_required = true;
            }
            index += 1;
        }
        assert(self@.routes =~= all.map_values(end));
        assert(self@ =~= old(self)@.without_route(*cidr, *via_router));
    }

    /// Process one prefix of an advertisement.
    pub fn process_prefix(&mut self, prefix: PrefixInformation, now: Instant)
        requires
            prefix.prefix_len <= 128,
            prefix.flags.has_addrconf() && prefix.valid_lifetime.micros > 0
                && !prefix.prefix.link_local() ==> {
                &&& now.can_add(prefix.preferred_lifetime)
                &&& now.can_add(prefix.valid_lifetime)
            },
        ensures
            final(self)@ == old(self)@.told_prefix(prefix, now),
    {
        if !prefix.flags.addrconf() {
            return ;
        }
        let cidr = Ipv6Cidr::new(prefix.prefix, prefix.prefix_len);
        if prefix.valid_lifetime.micros > 0 {
            self.add_prefix(&cidr, &prefix, now);
        } else {
            self.expire_prefix(&cidr);
        }
    }

    /// Process a router advertisement's information.
    ///
    /// `prefixes` are the prefix information options of the advertisement, all of
    /// them, in order. `router_lifetime` is the lifetime of the default route.
    pub fn process_advertisement(
        &mut self,
        source: &Ipv6Address,
        flags: NdiscRouterFlags,
        router_lifetime: Duration,
        prefixes: &[PrefixInformation],
        now: Instant,
    )
        requires
            SlaacView::ends_in_time(router_lifetime, prefixes@, now),
        ensures
            final(self)@ == old(self)@.advertised(
                *source,
                flags,
                router_lifetime,
                prefixes@,
                now,
            ),
    {
        let mut index: usize = 0;
        assert(prefixes@.take(0) =~= Seq::empty());
        while index < prefixes.len()
            invariant
                index <= prefixes@.len(),
                self@ == old(self)@.told_prefixes(prefixes@.take(index as int), now),
                SlaacView::ends_in_time(router_lifetime, prefixes@, now),
            decreases prefixes@.len() - index,
        {
            let prefix = prefixes[index];
            assert(prefixes@.take(index + 1).drop_last() =~= prefixes@.take(index as int));
            assert(prefix == prefixes@[index as int]);
            if prefix.is_valid_prefix_info() {
                self.process_prefix(prefix, now);
            }
            index += 1;
        }
        assert(prefixes@.take(index as int) =~= prefixes@);
        let default = Ipv6Cidr::new(Ipv6Address::unspecified(), 0);
        if router_lifetime.micros > 0 {
            self.add_route(&default, source, now.after(router_lifetime));
        } else {
            self.expire_route(&default, source);
        }
        self.state.routers_seen = true;
        self.state.managed = flags.managed();
        self.state.other_config = flags.other();
        // Advertisement might be unsolicited
        if self.phase == Phase::Discovering {
            self.phase = Phase::Maintaining;
        }
    }

    /// Whether a prefix has expired. Every lifetime is looked at, so that the ones
    /// that haven't run out count toward the deadline.
    fn prefix_expire_sync_required(&self, clock: &mut Clock) -> (expired: bool)
        ensures
            expired == some_passed(*old(clock), prefix_ends(self@.prefix)),
            *final(clock) == asked_all(*old(clock), prefix_ends(self@.prefix)),
            final(clock).now == old(clock).now,
    {
        let ghost ends = prefix_ends(self@.prefix);
        let mut expired: bool = false;
        let mut index: usize = 0;
        while index < self.prefix.len()
            invariant
                index <= self@.prefix.len(),
                ends == prefix_ends(self@.prefix),
                *clock == asked_all(*old(clock), ends.take(index as int)),
                clock.now == old(clock).now,
                expired == exists|i: int|
                    0 <= i < index && old(clock).has_passed(#[trigger] ends[i]),
            decreases self@.prefix.len() - index,
        {
            assert(ends.take(index + 1).drop_last() =~= ends.take(index as int));
            assert(ends[index as int] == self@.prefix[index as int].1.valid_until);
            if clock.expired(self.prefix.get(index).1.valid_until) {
                expired = true;
            }
            index += 1;
        }
        assert(ends.take(index as int) =~= ends);
        expired
    }

    /// Whether a route has expired. Every lifetime is looked at.
    fn route_expire_sync_required(&self, clock: &mut Clock) -> (expired: bool)
        ensures
            expired == some_passed(*old(clock), route_ends(self@.routes)),
            *final(clock) == asked_all(*old(clock), route_ends(self@.routes)),
            final(clock).now == old(clock).now,
    {
        let ghost ends = route_ends(self@.routes);
        let mut expired: bool = false;
        let mut index: usize = 0;
        while index < self.routes.len()
            invariant
                index <= self@.routes.len(),
                ends == route_ends(self@.routes),
                *clock == asked_all(*old(clock), ends.take(index as int)),
                clock.now == old(clock).now,
                expired == exists|i: int|
                    0 <= i < index && old(clock).has_passed(#[trigger] ends[i]),
            decreases self@.routes.len() - index,
        {
            assert(ends.take(index + 1).drop_last() =~= ends.take(index as int));
            assert(ends[index as int] == self@.routes[index as int].valid_until);
            if clock.expired(self.routes.get(index).valid_until) {
                expired = true;
            }
            index += 1;
        }
        assert(ends.take(index as int) =~= ends);
        expired
    }

    /// Get whether a route and prefix information must be synchronized with the interface.
    pub fn sync_required(&self, clock: &mut Clock) -> (r: bool)
        ensures
            r == self@.needs_sync(*old(clock)),
            *final(clock) == self@.sync_clock(*old(clock)),
            final(clock).now == old(clock).now,
    {
        // Expiry deadlines count in every phase: an unsolicited advertisement can
        // install state before or after discovery.
        let prefix_expired = self.prefix_expire_sync_required(clock);
        let route_expired = self.route_expire_sync_required(clock);
        self.has_ra_update() || prefix_expired || route_expired
    }

    /// Remove expired routes and prefixes.
    pub fn update_slaac_state(&mut self, now: Instant)
        ensures
            final(self)@ == old(self)@.updated(now),
    {
        let ghost valid_prefix = |entry: (Ipv6Cidr, PrefixInfo)| entry.1.valid(now);
        let ghost valid_route = |route: Route| route.valid(now);
        let keep_prefix = |entry: &(Ipv6Cidr, PrefixInfo)| -> (r: bool)
            ensures
                r == entry.1.valid(now),
            { entry.1.is_valid(now) };
        self.prefix.retain(keep_prefix, Ghost(valid_prefix));
        let keep_route = |route: &Route| -> (r: bool)
            ensures
                r == route.valid(now),
            { route.is_valid(now) };
        self.routes.retain(keep_route, Ghost(valid_route));
        self.sync_required = false;
    }

    /// Get whether a router solicitation must be emitted.
    pub fn rs_required(&self, clock: &mut Clock) -> (r: bool)
        ensures
            r == old(clock).has_passed(self@.solicit_at()),
            *final(clock) == old(clock).asked(self@.solicit_at()),
    {
        clock.expired(self.rs_at())
    }

    /// When the next router solicitation is due. The far end of time if none is.
    pub fn rs_at(&self) -> (at: Instant)
        ensures
            at == self@.solicit_at(),
    {
        match self.phase {
            Phase::Start | Phase::Discovering => if self.num_solicitations > 0 {
                self.retry_rs_at
            } else {
                Instant::max_value()
            },
            _ => Instant::max_value(),
        }
    }

    /// Solicit again, keeping the prefixes and routes already learned. RFC 4861
    /// section 6.3.7.
    pub fn restart(&mut self)
        ensures
            final(self)@ == old(self)@.restarted(),
    {
        self.phase = Phase::Start;
        self.num_solicitations = MAX_RTR_SOLICITATIONS;
        self.retry_rs_at = Instant::zero();
    }

    /// Update router solicitation tracking state
    ///
    /// Must be called after sending a router solicitation on the interface.
    pub fn rs_sent(&mut self, now: Instant)
        requires
            old(self)@.retry_in_time(now),
        ensures
            final(self)@ == old(self)@.solicited(now),
    {
        match self.phase {
            Phase::Start | Phase::Discovering => {
                if self.retry_rs_at.micros <= now.micros {
                    if self.num_solicitations == 0 {
                        self.phase = Phase::GaveUp;
                    } else {
                        self.num_solicitations = self.num_solicitations - 1;
                        self.phase = Phase::Discovering;
                        self.retry_rs_at = now.after(
                            Duration::from_secs(RTR_SOLICITATION_INTERVAL),
                        );
                    }
                }
            },
            _ => {},
        }
    }
}

/// Prefixes do not change the routes, and stay within their table.
proof fn lemma_told_prefixes(
    slaac: SlaacView,
    prefixes: Seq<PrefixInformation>,
    now: Instant,
)
    ensures
        slaac.told_prefixes(prefixes, now).routes == slaac.routes,
        slaac.prefix.len() <= SLAAC_PREFIX_COUNT ==> slaac.told_prefixes(prefixes, now).prefix.len()
            <= SLAAC_PREFIX_COUNT,
    decreases prefixes.len(),
{
    if prefixes.len() > 0 {
        lemma_told_prefixes(slaac, prefixes.drop_last(), now);
    }
}

/// An advertisement keeps the prefixes and routes in order.
pub proof fn lemma_advertised_wf(
    slaac: SlaacView,
    source: Ipv6Address,
    flags: NdiscRouterFlags,
    lifetime: Duration,
    prefixes: Seq<PrefixInformation>,
    now: Instant,
)
    requires
        slaac.wf(),
    ensures
        slaac.advertised(source, flags, lifetime, prefixes, now).wf(),
{
    lemma_told_prefixes(slaac, prefixes, now);
    let told = slaac.told_prefixes(prefixes, now);
    lemma_position(told.routes, |route: Route| route.is_route(ipv6_default(), source));
}

/// Dropping what has expired keeps the prefixes and routes in order.
pub proof fn lemma_updated_wf(slaac: SlaacView, now: Instant)
    requires
        slaac.wf(),
    ensures
        slaac.updated(now).wf(),
{
    let keep = |route: Route| route.valid(now);
    let kept = slaac.routes.filter(keep);
    assert forall|k: int| 0 <= k < kept.len() implies (#[trigger] kept[k]).cidr.wf() by {
        lemma_filter_from(slaac.routes, keep, k);
        let i = choose|i: int| 0 <= i < slaac.routes.len() && #[trigger] slaac.routes[i] == kept[k];
        assert(slaac.routes[i].cidr.wf());
    }
}

/// The address formed from a prefix of 64 bits and the EUI-64 of a hardware
/// address.
pub open spec fn formed_address(
    link_prefix: Ipv6Cidr,
    hardware_addr: HardwareAddress,
) -> Option<Ipv6Cidr> {
    if link_prefix.prefix_len != 64 {
        None
    } else {
        match hardware_addr.eui_64() {
            Some(id) => Some(
                Ipv6Cidr {
                    address: ipv6_from_halves(first_half(link_prefix.address), id),
                    prefix_len: 64,
                },
            ),
            None => None,
        }
    }
}

/// Form the address `link_prefix` + EUI-64 of `hardware_addr`, if the prefix is
/// 64 bits long.
pub fn from_link_prefix(link_prefix: &Ipv6Cidr, hardware_addr: HardwareAddress) -> (addr: Option<
    Ipv6Cidr,
>)
    ensures
        addr == formed_address(*link_prefix, hardware_addr),
{
    if link_prefix.prefix_len() != 64 {
        return None;
    }
    match hardware_addr.as_eui_64() {
        Some(id) => {
            let first: u128 = link_prefix.address().bits / 0x1_0000_0000_0000_0000;
            Some(
                Ipv6Cidr::new(
                    Ipv6Address { bits: first * 0x1_0000_0000_0000_0000 + id as u128 },
                    64,
                ),
            )
        },
        None => None,
    }
}

} // verus!

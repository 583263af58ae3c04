//! What holds of stateless address autoconfiguration.

use super::slaac::{
    formed_address, of_prefix, prefix_ends, route_ends, route_position, some_passed, Phase,
    PrefixInfo, Route as LearnedRoute, SlaacConfig, SlaacView, MAX_RTR_SOLICITATIONS,
    RTR_SOLICITATION_INTERVAL,
};
use super::slaac_sync::{
    addr_kept, formed_under, is_cidr, is_route_of, is_slaac_route, route_expired, route_kept,
    synced_addrs, synced_routes, with_learned_route, with_learned_routes, with_prefix_addr,
    with_prefix_addrs,
};
use super::access::{not_link_local, readdressed};
use super::{first_half, AddrOrigin, IfaceAddr, IfaceHandle};
use crate::config::{
    IFACE_ADDR_COUNT, ROUTE_COUNT, SLAAC_PREFIX_COUNT, SLAAC_ROUTER_COUNT,
};
use crate::lists::{
    lemma_filter_drops, lemma_filter_from, lemma_filter_keeps, lemma_filter_pairwise,
    lemma_filter_push, lemma_filter_twice, lemma_filter_update, lemma_position, pairwise, position,
};
use crate::route::{Route, RouteOrigin};
use crate::time::{Clock, Duration, Instant};
use crate::wire::ndisc::{NdiscRouterFlags, PrefixInformation};
use crate::wire::{HardwareAddress, IpCidr, Ipv6Address, Ipv6Cidr};
use vstd::prelude::*;

verus! {

/// Whether two entries are of different prefixes.
pub open spec fn different_prefixes() -> spec_fn(
    (Ipv6Cidr, PrefixInfo),
    (Ipv6Cidr, PrefixInfo),
) -> bool {
    |a: (Ipv6Cidr, PrefixInfo), b: (Ipv6Cidr, PrefixInfo)| a.0 != b.0
}

/// Whether two learned routes are to different subnets or through different routers.
pub open spec fn different_routes() -> spec_fn(LearnedRoute, LearnedRoute) -> bool {
    |a: LearnedRoute, b: LearnedRoute| a.cidr != b.cidr || a.via_router != b.via_router
}

/// Whether every prefix and every route was recorded once, none more than fit, and no
/// more solicitations are left than there are at most.
pub open spec fn tables_ok(slaac: SlaacView) -> bool {
    &&& slaac.prefix.len() <= SLAAC_PREFIX_COUNT
    &&& slaac.routes.len() <= SLAAC_ROUTER_COUNT
    &&& pairwise(slaac.prefix, different_prefixes())
    &&& pairwise(slaac.routes, different_routes())
    &&& slaac.num_solicitations <= MAX_RTR_SOLICITATIONS
}

/// SLAAC starts with its tables in order.
pub proof fn started_tables_ok(config: SlaacConfig)
    ensures
        tables_ok(SlaacView::started(config)),
{
}

/// What a prefix information option says is recorded once.
proof fn lemma_told_prefix_ok(slaac: SlaacView, prefix: PrefixInformation, now: Instant)
    requires
        tables_ok(slaac),
    ensures
        tables_ok(slaac.told_prefix(prefix, now)),
{
    let cidr = Ipv6Cidr { address: prefix.prefix, prefix_len: prefix.prefix_len };
    let r = different_prefixes();
    let before = slaac.prefix;
    let after = slaac.told_prefix(prefix, now).prefix;
    lemma_position(before, of_prefix(cidr));
    assert forall|i: int, j: int| 0 <= i < j < after.len() implies r(
        #[trigger] after[i],
        #[trigger] after[j],
    ) by {
        if j < before.len() {
            assert(r(before[i], before[j]));
        } else {
            assert(!of_prefix(cidr)(before[i]));
        }
    }
}

/// What prefix information options say is recorded once.
pub proof fn lemma_told_prefixes_ok(slaac: SlaacView, prefixes: Seq<PrefixInformation>, now: Instant)
    requires
        tables_ok(slaac),
    ensures
        tables_ok(slaac.told_prefixes(prefixes, now)),
    decreases prefixes.len(),
{
    if prefixes.len() > 0 {
        lemma_told_prefixes_ok(slaac, prefixes.drop_last(), now);
        lemma_told_prefix_ok(
            slaac.told_prefixes(prefixes.drop_last(), now),
            prefixes.last(),
            now,
        );
    }
}

/// What an advertisement says of its router is recorded once.
proof fn lemma_told_router_ok(
    slaac: SlaacView,
    source: Ipv6Address,
    lifetime: Duration,
    now: Instant,
)
    requires
        tables_ok(slaac),
    ensures
        tables_ok(slaac.told_router(source, lifetime, now)),
{
    let cidr = super::slaac::ipv6_default();
    let p = |route: LearnedRoute| route.is_route(cidr, source);
    let r = different_routes();
    let before = slaac.routes;
    let after = slaac.told_router(source, lifetime, now).routes;
    lemma_position(before, p);
    assert(route_position(before, cidr, source) == position(before, p));
    assert forall|i: int, j: int| 0 <= i < j < after.len() implies r(
        #[trigger] after[i],
        #[trigger] after[j],
    ) by {
        if j < before.len() {
            assert(r(before[i], before[j]));
        } else {
            assert(!p(before[i]));
        }
    }
}

/// An advertisement keeps the tables in order, whatever it says.
pub proof fn advertisement_keeps_tables_ok(
    slaac: SlaacView,
    source: Ipv6Address,
    flags: NdiscRouterFlags,
    lifetime: Duration,
    prefixes: Seq<PrefixInformation>,
    now: Instant,
)
    requires
        tables_ok(slaac),
    ensures
        tables_ok(slaac.advertised(source, flags, lifetime, prefixes, now)),
{
    lemma_told_prefixes_ok(slaac, prefixes, now);
    lemma_told_router_ok(slaac.told_prefixes(prefixes, now), source, lifetime, now);
}

/// Dropping what expired keeps the tables in order.
pub proof fn update_keeps_tables_ok(slaac: SlaacView, now: Instant)
    requires
        tables_ok(slaac),
    ensures
        tables_ok(slaac.updated(now)),
{
    let valid_prefix = |entry: (Ipv6Cidr, PrefixInfo)| entry.1.valid(now);
    let valid_route = |route: LearnedRoute| route.valid(now);
    lemma_filter_drops(slaac.prefix, valid_prefix);
    lemma_filter_drops(slaac.routes, valid_route);
    lemma_filter_pairwise(slaac.prefix, valid_prefix, different_prefixes());
    lemma_filter_pairwise(slaac.routes, valid_route, different_routes());
}

/// Soliciting, and starting to do so again, keep the tables in order.
pub proof fn solicitation_keeps_tables_ok(slaac: SlaacView, now: Instant)
    requires
        tables_ok(slaac),
    ensures
        tables_ok(slaac.solicited(now)),
        tables_ok(slaac.restarted()),
{
}

/// Once what expired was dropped, nothing is left to synchronize at that time.
pub proof fn updated_state_needs_no_sync(slaac: SlaacView, clock: Clock)
    ensures
        !slaac.updated(clock.now).needs_sync(clock),
{
    let now = clock.now;
    let after = slaac.updated(now);
    assert(!some_passed(clock, prefix_ends(after.prefix))) by {
        let p = |entry: (Ipv6Cidr, PrefixInfo)| entry.1.valid(now);
        assert forall|i: int| 0 <= i < prefix_ends(after.prefix).len() implies !clock.has_passed(
            #[trigger] prefix_ends(after.prefix)[i],
        ) by {
            lemma_filter_from(slaac.prefix, p, i);
        }
    }
    assert(!some_passed(clock, route_ends(after.routes))) by {
        let p = |route: LearnedRoute| route.valid(now);
        assert forall|i: int| 0 <= i < route_ends(after.routes).len() implies !clock.has_passed(
            #[trigger] route_ends(after.routes)[i],
        ) by {
            lemma_filter_from(slaac.routes, p, i);
        }
    }
}

/// Dropping what expired keeps what is still valid.
pub proof fn update_keeps_what_is_valid(slaac: SlaacView, now: Instant)
    ensures
        forall|i: int|
            0 <= i < slaac.prefix.len() && (#[trigger] slaac.prefix[i]).1.valid(now)
                ==> slaac.updated(now).prefix.contains(slaac.prefix[i]),
        forall|i: int|
            0 <= i < slaac.routes.len() && (#[trigger] slaac.routes[i]).valid(now)
                ==> slaac.updated(now).routes.contains(slaac.routes[i]),
{
    let after = slaac.updated(now);
    assert forall|i: int| 0 <= i < slaac.prefix.len() && (#[trigger] slaac.prefix[i]).1.valid(
        now,
    ) implies after.prefix.contains(slaac.prefix[i]) by {
        let p = |entry: (Ipv6Cidr, PrefixInfo)| entry.1.valid(now);
        lemma_filter_keeps(slaac.prefix, p, i);
    }
    assert forall|i: int| 0 <= i < slaac.routes.len() && (#[trigger] slaac.routes[i]).valid(
        now,
    ) implies after.routes.contains(slaac.routes[i]) by {
        let p = |route: LearnedRoute| route.valid(now);
        lemma_filter_keeps(slaac.routes, p, i);
    }
}

/// An advertisement that answers a solicitation ends router discovery: no more
/// solicitations are due.
pub proof fn answered_solicitation_is_the_last(
    slaac: SlaacView,
    source: Ipv6Address,
    flags: NdiscRouterFlags,
    lifetime: Duration,
    prefixes: Seq<PrefixInformation>,
    now: Instant,
)
    requires
        slaac.phase == Phase::Discovering,
    ensures
        slaac.advertised(source, flags, lifetime, prefixes, now).phase == Phase::Maintaining,
        slaac.advertised(source, flags, lifetime, prefixes, now).solicit_at() == Instant::never(),
{
    lemma_told_prefixes_phase(slaac, prefixes, now);
}

/// An advertisement that nobody asked for does not stop solicitations.
pub proof fn unsolicited_advertisement_changes_no_timer(
    slaac: SlaacView,
    source: Ipv6Address,
    flags: NdiscRouterFlags,
    lifetime: Duration,
    prefixes: Seq<PrefixInformation>,
    now: Instant,
)
    requires
        slaac.phase != Phase::Discovering,
    ensures
        slaac.advertised(source, flags, lifetime, prefixes, now).phase == slaac.phase,
        slaac.advertised(source, flags, lifetime, prefixes, now).solicit_at()
            == slaac.solicit_at(),
{
    lemma_told_prefixes_phase(slaac, prefixes, now);
}

/// Prefixes do not change the state of router discovery.
proof fn lemma_told_prefixes_phase(slaac: SlaacView, prefixes: Seq<PrefixInformation>, now: Instant)
    ensures
        slaac.told_prefixes(prefixes, now).phase == slaac.phase,
        slaac.told_prefixes(prefixes, now).num_solicitations == slaac.num_solicitations,
        slaac.told_prefixes(prefixes, now).retry_rs_at == slaac.retry_rs_at,
    decreases prefixes.len(),
{
    if prefixes.len() > 0 {
        lemma_told_prefixes_phase(slaac, prefixes.drop_last(), now);
    }
}

/// How many solicitations are sent when the interface is polled at these times and no
/// router answers.
pub open spec fn solicitations_sent(slaac: SlaacView, polls: Seq<Instant>) -> nat
    decreases polls.len(),
{
    if polls.len() == 0 {
        0
    } else if slaac.solicit_at().micros <= polls[0].micros {
        1 + solicitations_sent(slaac.solicited(polls[0]), polls.drop_first())
    } else {
        solicitations_sent(slaac, polls.drop_first())
    }
}

/// No more solicitations are sent than are left, however often the interface is
/// polled.
pub proof fn solicitations_are_bounded(slaac: SlaacView, polls: Seq<Instant>)
    requires
        forall|i: int|
            0 <= i < polls.len() ==> (#[trigger] polls[i]).can_add(
                Duration::of_secs(RTR_SOLICITATION_INTERVAL as int),
            ),
    ensures
        solicitations_sent(slaac, polls) <= slaac.num_solicitations,
    decreases polls.len(),
{
    if polls.len() > 0 {
        let rest = polls.drop_first();
        assert(polls[0].can_add(Duration::of_secs(RTR_SOLICITATION_INTERVAL as int)));
        assert forall|i: int| 0 <= i < rest.len() implies (#[trigger] rest[i]).can_add(
            Duration::of_secs(RTR_SOLICITATION_INTERVAL as int),
        ) by {
            assert(rest[i] == polls[i + 1]);
        }
        solicitations_are_bounded(slaac.solicited(polls[0]), rest);
        solicitations_are_bounded(slaac, rest);
    }
}

/// After a solicitation the next one is due one interval later, or never.
pub proof fn solicitations_are_spaced(slaac: SlaacView, now: Instant)
    requires
        now.can_add(Duration::of_secs(RTR_SOLICITATION_INTERVAL as int)),
        slaac.solicit_at().micros <= now.micros,
    ensures
        slaac.solicited(now).solicit_at() == Instant::never() || slaac.solicited(now).solicit_at()
            == now.plus(Duration::of_secs(RTR_SOLICITATION_INTERVAL as int)),
{
}

/// The addresses that are not SLAAC's.
pub open spec fn not_slaac() -> spec_fn(IfaceAddr) -> bool {
    |addr: IfaceAddr| addr.origin != AddrOrigin::Slaac
}

/// Giving prefixes their addresses leaves the others as they are.
proof fn lemma_prefix_addrs_keep_others(
    addrs: Seq<IfaceAddr>,
    prefixes: Seq<(Ipv6Cidr, PrefixInfo)>,
    hardware_addr: HardwareAddress,
    now: Instant,
)
    ensures
        with_prefix_addrs(addrs, prefixes, hardware_addr, now).filter(not_slaac()) == addrs.filter(
            not_slaac(),
        ),
    decreases prefixes.len(),
{
    if prefixes.len() > 0 {
        let p = not_slaac();
        let before = with_prefix_addrs(addrs, prefixes.drop_last(), hardware_addr, now);
        let prefix = prefixes.last();
        lemma_prefix_addrs_keep_others(addrs, prefixes.drop_last(), hardware_addr, now);
        if let Some(address) = formed_address(prefix.0, hardware_addr) {
            lemma_position(before, is_cidr(address));
            let fresh = IfaceAddr {
                cidr: IpCidr::Ipv6(address),
                origin: AddrOrigin::Slaac,
                preferred_until: Some(prefix.1.preferred_until),
            };
            lemma_filter_push(before, p, fresh);
            if let Some(i) = position(before, is_cidr(address)) {
                if before[i].origin == AddrOrigin::Slaac {
                    lemma_filter_update(
                        before,
                        p,
                        i,
                        IfaceAddr { preferred_until: Some(prefix.1.preferred_until), ..before[i] },
                    );
                }
            }
        }
    }
}

/// Synchronizing touches no address but SLAAC's own: the others stay, in their order.
pub proof fn sync_keeps_other_addresses(
    addrs: Seq<IfaceAddr>,
    slaac: SlaacView,
    hardware_addr: HardwareAddress,
    now: Instant,
)
    ensures
        synced_addrs(addrs, slaac, hardware_addr, now).filter(not_slaac()) == addrs.filter(
            not_slaac(),
        ),
{
    let installed = with_prefix_addrs(addrs, slaac.prefix, hardware_addr, now);
    lemma_prefix_addrs_keep_others(addrs, slaac.prefix, hardware_addr, now);
    lemma_filter_twice(installed, not_slaac(), addr_kept(slaac.prefix, now));
}

/// After synchronizing, no address of SLAAC's is left that starts with the 64 bits of an
/// expired prefix, whichever hardware address it was formed under.
pub proof fn sync_drops_expired_addresses(
    addrs: Seq<IfaceAddr>,
    slaac: SlaacView,
    hardware_addr: HardwareAddress,
    now: Instant,
)
    ensures
        forall|k: int, i: int|
            #![trigger synced_addrs(addrs, slaac, hardware_addr, now)[k], slaac.prefix[i]]
            {
                let addr = synced_addrs(addrs, slaac, hardware_addr, now)[k];
                0 <= k < synced_addrs(addrs, slaac, hardware_addr, now).len() && 0 <= i
                    < slaac.prefix.len() && !slaac.prefix[i].1.valid(now) && slaac.prefix[i].0.prefix_len
                    == 64 && addr.origin == AddrOrigin::Slaac ==> (addr.cidr matches IpCidr::Ipv6(
                    cidr,
                ) ==> first_half(cidr.address) != first_half(slaac.prefix[i].0.address))
            },
{
    let installed = with_prefix_addrs(addrs, slaac.prefix, hardware_addr, now);
    let after = synced_addrs(addrs, slaac, hardware_addr, now);
    assert forall|k: int, i: int|
        #![trigger after[k], slaac.prefix[i]]
        0 <= k < after.len() && 0 <= i < slaac.prefix.len() && !slaac.prefix[i].1.valid(now)
            && slaac.prefix[i].0.prefix_len == 64 && after[k].origin == AddrOrigin::Slaac implies (
    after[k].cidr matches IpCidr::Ipv6(cidr) ==> first_half(cidr.address) != first_half(
        slaac.prefix[i].0.address,
    )) by {
        lemma_filter_from(installed, addr_kept(slaac.prefix, now), k);
    }
}

/// Whether every address of SLAAC's was formed from one of the prefixes.
pub open spec fn all_backed(
    addrs: Seq<IfaceAddr>,
    prefixes: Seq<(Ipv6Cidr, PrefixInfo)>,
) -> bool {
    forall|k: int|
        0 <= k < addrs.len() && (#[trigger] addrs[k]).origin == AddrOrigin::Slaac ==> is_backed(
            addrs[k],
            prefixes,
        )
}

/// Whether an address was formed from one of the prefixes.
pub open spec fn is_backed(addr: IfaceAddr, prefixes: Seq<(Ipv6Cidr, PrefixInfo)>) -> bool {
    addr.cidr matches IpCidr::Ipv6(cidr) && exists|i: int|
        0 <= i < prefixes.len() && formed_under((#[trigger] prefixes[i]).0, cidr.address)
}

/// An address formed from a prefix starts with it.
proof fn lemma_formed_under(prefix: Ipv6Cidr, hardware_addr: HardwareAddress)
    requires
        formed_address(prefix, hardware_addr) is Some,
    ensures
        formed_under(prefix, formed_address(prefix, hardware_addr)->0.address),
{
    let first = first_half(prefix.address);
    let id = hardware_addr.eui_64()->0;
    assert(0 <= first < 0x1_0000_0000_0000_0000);
    assert((first * 0x1_0000_0000_0000_0000 + id) / 0x1_0000_0000_0000_0000 == first)
        by (nonlinear_arith)
        requires
            0 <= id < 0x1_0000_0000_0000_0000,
    ;
}

/// Giving prefixes their addresses leaves all of SLAAC's formed from a prefix.
proof fn lemma_prefix_addrs_backed(
    addrs: Seq<IfaceAddr>,
    prefixes: Seq<(Ipv6Cidr, PrefixInfo)>,
    hardware_addr: HardwareAddress,
    now: Instant,
    all: Seq<(Ipv6Cidr, PrefixInfo)>,
)
    requires
        all_backed(addrs, all),
        prefixes.len() <= all.len(),
        prefixes =~= all.take(prefixes.len() as int),
    ensures
        all_backed(with_prefix_addrs(addrs, prefixes, hardware_addr, now), all),
    decreases prefixes.len(),
{
    if prefixes.len() > 0 {
        let before = with_prefix_addrs(addrs, prefixes.drop_last(), hardware_addr, now);
        let after = with_prefix_addrs(addrs, prefixes, hardware_addr, now);
        let last = prefixes.last();
        assert(prefixes.drop_last() =~= all.take(prefixes.len() - 1));
        lemma_prefix_addrs_backed(addrs, prefixes.drop_last(), hardware_addr, now, all);
        if let Some(address) = formed_address(last.0, hardware_addr) {
            lemma_position(before, is_cidr(address));
            lemma_formed_under(last.0, hardware_addr);
            assert(all[prefixes.len() - 1] == last);
        }
        assert forall|k: int|
            0 <= k < after.len() && (#[trigger] after[k]).origin == AddrOrigin::Slaac implies is_backed(
            after[k],
            all,
        ) by {
            if k < before.len() {
                assert(after[k].cidr == before[k].cidr);
                assert(is_backed(before[k], all));
            }
        }
    }
}

/// Where every address of SLAAC's was formed from a prefix that SLAAC keeps track of,
/// synchronizing keeps it so: each one left was formed from a prefix that is valid
/// still and is kept track of, so it goes when that one expires.
pub proof fn sync_keeps_addresses_backed(
    addrs: Seq<IfaceAddr>,
    slaac: SlaacView,
    hardware_addr: HardwareAddress,
    now: Instant,
)
    requires
        all_backed(addrs, slaac.prefix),
    ensures
        all_backed(synced_addrs(addrs, slaac, hardware_addr, now), slaac.updated(now).prefix),
{
    let installed = with_prefix_addrs(addrs, slaac.prefix, hardware_addr, now);
    let after = synced_addrs(addrs, slaac, hardware_addr, now);
    let still = |entry: (Ipv6Cidr, PrefixInfo)| entry.1.valid(now);
    let kept = slaac.prefix.filter(still);
    assert(slaac.prefix =~= slaac.prefix.take(slaac.prefix.len() as int));
    lemma_prefix_addrs_backed(addrs, slaac.prefix, hardware_addr, now, slaac.prefix);
    assert forall|k: int|
        0 <= k < after.len() && (#[trigger] after[k]).origin == AddrOrigin::Slaac implies is_backed(
        after[k],
        slaac.updated(now).prefix,
    ) by {
        lemma_filter_from(installed, addr_kept(slaac.prefix, now), k);
        assert(is_backed(after[k], slaac.prefix));
        if let IpCidr::Ipv6(cidr) = after[k].cidr {
            let i = choose|i: int|
                0 <= i < slaac.prefix.len() && formed_under(
                    (#[trigger] slaac.prefix[i]).0,
                    cidr.address,
                );
            assert(still(slaac.prefix[i]));
            lemma_filter_keeps(slaac.prefix, still, i);
            let j = choose|j: int| 0 <= j < kept.len() && #[trigger] kept[j] == slaac.prefix[i];
            assert(formed_under(kept[j].0, cidr.address));
        }
    }
}

/// A change of the hardware address keeps every address of SLAAC's formed from a prefix
/// that SLAAC keeps track of.
pub proof fn readdressing_keeps_addresses_backed(
    addrs: Seq<IfaceAddr>,
    hardware_addr: HardwareAddress,
    prefixes: Seq<(Ipv6Cidr, PrefixInfo)>,
)
    requires
        all_backed(addrs, prefixes),
    ensures
        all_backed(readdressed(addrs, hardware_addr), prefixes),
{
    let after = readdressed(addrs, hardware_addr);
    let others = addrs.filter(not_link_local());
    assert forall|k: int|
        0 <= k < after.len() && (#[trigger] after[k]).origin == AddrOrigin::Slaac implies is_backed(
        after[k],
        prefixes,
    ) by {
        if k < others.len() {
            lemma_filter_from(addrs, not_link_local(), k);
        }
    }
}

/// No prefix information option makes SLAAC lose track of a prefix.
proof fn lemma_told_prefixes_stay(slaac: SlaacView, prefixes: Seq<PrefixInformation>, now: Instant)
    ensures
        slaac.told_prefixes(prefixes, now).prefix.len() >= slaac.prefix.len(),
        forall|i: int|
            0 <= i < slaac.prefix.len() ==> (#[trigger] slaac.told_prefixes(
                prefixes,
                now,
            ).prefix[i]).0 == slaac.prefix[i].0,
    decreases prefixes.len(),
{
    if prefixes.len() > 0 {
        let before = slaac.told_prefixes(prefixes.drop_last(), now);
        let last = prefixes.last();
        let cidr = Ipv6Cidr { address: last.prefix, prefix_len: last.prefix_len };
        lemma_told_prefixes_stay(slaac, prefixes.drop_last(), now);
        lemma_position(before.prefix, of_prefix(cidr));
        assert forall|i: int| 0 <= i < slaac.prefix.len() implies (#[trigger] slaac.told_prefixes(
            prefixes,
            now,
        ).prefix[i]).0 == slaac.prefix[i].0 by {
            assert(before.prefix[i].0 == slaac.prefix[i].0);
        }
    }
}

/// An advertisement keeps every address of SLAAC's formed from a prefix that SLAAC keeps
/// track of, whatever it says.
pub proof fn advertisement_keeps_addresses_backed(
    addrs: Seq<IfaceAddr>,
    slaac: SlaacView,
    source: Ipv6Address,
    flags: NdiscRouterFlags,
    lifetime: Duration,
    prefixes: Seq<PrefixInformation>,
    now: Instant,
)
    requires
        all_backed(addrs, slaac.prefix),
    ensures
        all_backed(addrs, slaac.advertised(source, flags, lifetime, prefixes, now).prefix),
{
    let after = slaac.advertised(source, flags, lifetime, prefixes, now).prefix;
    lemma_told_prefixes_stay(slaac, prefixes, now);
    assert(after == slaac.told_prefixes(prefixes, now).prefix);
    assert forall|k: int|
        0 <= k < addrs.len() && (#[trigger] addrs[k]).origin == AddrOrigin::Slaac implies is_backed(
        addrs[k],
        after,
    ) by {
        assert(is_backed(addrs[k], slaac.prefix));
        if let IpCidr::Ipv6(cidr) = addrs[k].cidr {
            let i = choose|i: int|
                0 <= i < slaac.prefix.len() && formed_under(
                    (#[trigger] slaac.prefix[i]).0,
                    cidr.address,
                );
            assert(formed_under(after[i].0, cidr.address));
        }
    }
}

/// Whether the address is assigned.
pub open spec fn is_assigned(addrs: Seq<IfaceAddr>, address: Ipv6Cidr) -> bool {
    exists|k: int| 0 <= k < addrs.len() && (#[trigger] addrs[k]).cidr == IpCidr::Ipv6(address)
}

/// Giving a prefix its address takes none away, and adds at most one.
proof fn lemma_prefix_addr_stays(
    addrs: Seq<IfaceAddr>,
    prefix: (Ipv6Cidr, PrefixInfo),
    hardware_addr: HardwareAddress,
    now: Instant,
    address: Ipv6Cidr,
)
    requires
        is_assigned(addrs, address),
    ensures
        is_assigned(with_prefix_addr(addrs, prefix, hardware_addr, now), address),
{
    let after = with_prefix_addr(addrs, prefix, hardware_addr, now);
    if let Some(formed) = formed_address(prefix.0, hardware_addr) {
        lemma_position(addrs, is_cidr(formed));
    }
    let k = choose|k: int|
        0 <= k < addrs.len() && (#[trigger] addrs[k]).cidr == IpCidr::Ipv6(address);
    assert(after[k].cidr == IpCidr::Ipv6(address));
}

/// Where there is room, each valid prefix has its address.
proof fn lemma_prefix_addrs_assigned(
    addrs: Seq<IfaceAddr>,
    prefixes: Seq<(Ipv6Cidr, PrefixInfo)>,
    hardware_addr: HardwareAddress,
    now: Instant,
)
    requires
        addrs.len() + prefixes.len() <= IFACE_ADDR_COUNT,
    ensures
        with_prefix_addrs(addrs, prefixes, hardware_addr, now).len() <= addrs.len()
            + prefixes.len(),
        forall|i: int|
            0 <= i < prefixes.len() && (#[trigger] prefixes[i]).1.valid(now) ==> (formed_address(
                prefixes[i].0,
                hardware_addr,
            ) matches Some(address) ==> is_assigned(
                with_prefix_addrs(addrs, prefixes, hardware_addr, now),
                address,
            )),
    decreases prefixes.len(),
{
    if prefixes.len() > 0 {
        let rest = prefixes.drop_last();
        let before = with_prefix_addrs(addrs, rest, hardware_addr, now);
        let last = prefixes.last();
        let after = with_prefix_addrs(addrs, prefixes, hardware_addr, now);
        lemma_prefix_addrs_assigned(addrs, rest, hardware_addr, now);
        if let Some(formed) = formed_address(last.0, hardware_addr) {
            lemma_position(before, is_cidr(formed));
        }
        assert forall|i: int|
            0 <= i < prefixes.len() && (#[trigger] prefixes[i]).1.valid(now) implies (
        formed_address(prefixes[i].0, hardware_addr) matches Some(address) ==> is_assigned(
            after,
            address,
        )) by {
            if let Some(address) = formed_address(prefixes[i].0, hardware_addr) {
                if i < rest.len() {
                    assert(rest[i] == prefixes[i]);
                    lemma_prefix_addr_stays(before, last, hardware_addr, now, address);
                } else {
                    match position(before, is_cidr(address)) {
                        Some(k) => {
                            assert(is_cidr(address)(before[k]));
                            assert(after[k].cidr == IpCidr::Ipv6(address));
                        },
                        None => {
                            assert(after[before.len() as int].cidr == IpCidr::Ipv6(address));
                        },
                    }
                }
            }
        }
    }
}

/// After synchronizing, every valid prefix has its address, where there is room for
/// it and no expired prefix stands for the same address.
pub proof fn sync_assigns_valid_prefixes(
    addrs: Seq<IfaceAddr>,
    slaac: SlaacView,
    hardware_addr: HardwareAddress,
    now: Instant,
    index: int,
)
    requires
        addrs.len() + slaac.prefix.len() <= IFACE_ADDR_COUNT,
        0 <= index < slaac.prefix.len(),
        slaac.prefix[index].1.valid(now),
        formed_address(slaac.prefix[index].0, hardware_addr) is Some,
        forall|i: int|
            0 <= i < slaac.prefix.len() && !(#[trigger] slaac.prefix[i]).1.valid(now)
                ==> formed_address(slaac.prefix[i].0, hardware_addr) != formed_address(
                slaac.prefix[index].0,
                hardware_addr,
            ),
    ensures
        is_assigned(
            synced_addrs(addrs, slaac, hardware_addr, now),
            formed_address(slaac.prefix[index].0, hardware_addr)->0,
        ),
{
    let address = formed_address(slaac.prefix[index].0, hardware_addr)->0;
    let installed = with_prefix_addrs(addrs, slaac.prefix, hardware_addr, now);
    let kept = addr_kept(slaac.prefix, now);
    lemma_prefix_addrs_assigned(addrs, slaac.prefix, hardware_addr, now);
    lemma_formed_under(slaac.prefix[index].0, hardware_addr);
    let k = choose|k: int|
        0 <= k < installed.len() && (#[trigger] installed[k]).cidr == IpCidr::Ipv6(address);
    assert(kept(installed[k]));
    lemma_filter_keeps(installed, kept, k);
    let after = installed.filter(kept);
    let j = choose|j: int| 0 <= j < after.len() && #[trigger] after[j] == installed[k];
    assert(after[j].cidr == IpCidr::Ipv6(address));
}

/// The routes that are not SLAAC's on this interface.
pub open spec fn not_slaac_on(iface: IfaceHandle) -> spec_fn(Route) -> bool {
    |route: Route| !(route.origin == RouteOrigin::Slaac && route.iface == iface)
}

/// Installing learned routes leaves the others as they are.
proof fn lemma_learned_routes_keep_others(
    routes: Seq<Route>,
    learned: Seq<LearnedRoute>,
    iface: IfaceHandle,
    now: Instant,
)
    ensures
        with_learned_routes(routes, learned, iface, now).filter(not_slaac_on(iface))
            == routes.filter(not_slaac_on(iface)),
    decreases learned.len(),
{
    if learned.len() > 0 {
        let p = not_slaac_on(iface);
        let last = learned.last();
        let before = with_learned_routes(routes, learned.drop_last(), iface, now);
        lemma_learned_routes_keep_others(routes, learned.drop_last(), iface, now);
        lemma_position(before, is_route_of(last, iface));
        let fresh = Route {
            cidr: IpCidr::Ipv6(last.cidr),
            via_router: crate::wire::IpAddress::Ipv6(last.via_router),
            iface,
            origin: RouteOrigin::Slaac,
            preferred_until: None,
            expires_at: Some(last.valid_until),
        };
        lemma_filter_push(before, p, fresh);
        if let Some(i) = position(before, is_route_of(last, iface)) {
            lemma_filter_update(
                before,
                p,
                i,
                Route { expires_at: Some(last.valid_until), ..before[i] },
            );
        }
    }
}

/// Synchronizing touches no route but SLAAC's own on this interface: the others stay,
/// in their order.
pub proof fn sync_keeps_other_routes(
    routes: Seq<Route>,
    slaac: SlaacView,
    iface: IfaceHandle,
    now: Instant,
)
    ensures
        synced_routes(routes, slaac, iface, now).filter(not_slaac_on(iface)) == routes.filter(
            not_slaac_on(iface),
        ),
{
    let kept = route_kept(slaac.routes, iface, now);
    lemma_learned_routes_keep_others(routes.filter(kept), slaac.routes, iface, now);
    lemma_filter_twice(routes, not_slaac_on(iface), kept);
}

/// Whether a learned route is in the table, with its lifetime.
pub open spec fn is_installed(routes: Seq<Route>, learned: LearnedRoute, iface: IfaceHandle) -> bool {
    exists|k: int|
        0 <= k < routes.len() && is_slaac_route(
            #[trigger] routes[k],
            iface,
            learned.cidr,
            learned.via_router,
        ) && routes[k].expires_at == Some(learned.valid_until)
}

/// Where there is room, each valid learned route is in the table.
proof fn lemma_learned_routes_installed(
    routes: Seq<Route>,
    learned: Seq<LearnedRoute>,
    iface: IfaceHandle,
    now: Instant,
)
    requires
        pairwise(learned, different_routes()),
        routes.len() + learned.len() <= ROUTE_COUNT,
    ensures
        with_learned_routes(routes, learned, iface, now).len() <= routes.len() + learned.len(),
        forall|i: int|
            0 <= i < learned.len() && (#[trigger] learned[i]).valid(now) ==> is_installed(
                with_learned_routes(routes, learned, iface, now),
                learned[i],
                iface,
            ),
    decreases learned.len(),
{
    if learned.len() > 0 {
        let rest = learned.drop_last();
        let last = learned.last();
        let r = different_routes();
        assert forall|i: int, j: int| 0 <= i < j < rest.len() implies r(
            #[trigger] rest[i],
            #[trigger] rest[j],
        ) by {
            assert(r(learned[i], learned[j]));
        }
        lemma_learned_routes_installed(routes, rest, iface, now);
        let before = with_learned_routes(routes, rest, iface, now);
        let after = with_learned_routes(routes, learned, iface, now);
        assert(after == with_learned_route(before, last, iface, now));
        lemma_position(before, is_route_of(last, iface));
        assert forall|i: int| 0 <= i < learned.len() && (#[trigger] learned[i]).valid(
            now,
        ) implies is_installed(after, learned[i], iface) by {
            if i < rest.len() {
                assert(rest[i] == learned[i]);
                assert(r(learned[i], learned[learned.len() - 1]));
                let k = choose|k: int|
                    0 <= k < before.len() && is_slaac_route(
                        #[trigger] before[k],
                        iface,
                        rest[i].cidr,
                        rest[i].via_router,
                    ) && before[k].expires_at == Some(rest[i].valid_until);
                if let Some(at) = position(before, is_route_of(last, iface)) {
                    assert(is_route_of(last, iface)(before[at]));
                    assert(at != k);
                }
                assert(after[k] == before[k]);
            } else {
                match position(before, is_route_of(last, iface)) {
                    Some(at) => {
                        assert(is_route_of(last, iface)(before[at]));
                        assert(is_slaac_route(after[at], iface, last.cidr, last.via_router));
                    },
                    None => {
                        assert(is_slaac_route(
                            after[before.len() as int],
                            iface,
                            last.cidr,
                            last.via_router,
                        ));
                    },
                }
            }
        }
    }
}

/// After synchronizing, every valid learned route is in the routing table with its
/// lifetime, where there is room.
pub proof fn sync_installs_valid_routes(
    routes: Seq<Route>,
    slaac: SlaacView,
    iface: IfaceHandle,
    now: Instant,
    index: int,
)
    requires
        tables_ok(slaac),
        routes.len() + slaac.routes.len() <= ROUTE_COUNT,
        0 <= index < slaac.routes.len(),
        slaac.routes[index].valid(now),
    ensures
        is_installed(synced_routes(routes, slaac, iface, now), slaac.routes[index], iface),
{
    let kept = route_kept(slaac.routes, iface, now);
    lemma_filter_drops(routes, kept);
    lemma_learned_routes_installed(routes.filter(kept), slaac.routes, iface, now);
}

/// Installing learned routes brings none that expired.
proof fn lemma_learned_routes_not_expired(
    routes: Seq<Route>,
    learned: Seq<LearnedRoute>,
    all: Seq<LearnedRoute>,
    iface: IfaceHandle,
    now: Instant,
)
    requires
        pairwise(all, different_routes()),
        learned.len() <= all.len(),
        forall|i: int| 0 <= i < learned.len() ==> #[trigger] learned[i] == all[i],
        forall|k: int|
            0 <= k < routes.len() ==> !route_expired(#[trigger] routes[k], all, iface, now),
    ensures
        forall|k: int|
            0 <= k < with_learned_routes(routes, learned, iface, now).len() ==> !route_expired(
                #[trigger] with_learned_routes(routes, learned, iface, now)[k],
                all,
                iface,
                now,
            ),
    decreases learned.len(),
{
    if learned.len() > 0 {
        let rest = learned.drop_last();
        let last = learned.last();
        let at = learned.len() - 1;
        let r = different_routes();
        assert forall|i: int| 0 <= i < rest.len() implies #[trigger] rest[i] == all[i] by {
            assert(rest[i] == learned[i]);
        }
        lemma_learned_routes_not_expired(routes, rest, all, iface, now);
        let before = with_learned_routes(routes, rest, iface, now);
        let after = with_learned_routes(routes, learned, iface, now);
        assert(learned[at] == all[at]);
        lemma_position(before, is_route_of(last, iface));
        assert forall|k: int| 0 <= k < after.len() implies !route_expired(
            #[trigger] after[k],
            all,
            iface,
            now,
        ) by {
            if k < before.len() {
                assert(!route_expired(before[k], all, iface, now));
                assert forall|i: int|
                    0 <= i < all.len() && !(#[trigger] all[i]).valid(now) implies !is_slaac_route(
                    after[k],
                    iface,
                    all[i].cidr,
                    all[i].via_router,
                ) by {
                    assert(!is_slaac_route(before[k], iface, all[i].cidr, all[i].via_router));
                }
            } else {
                assert forall|i: int|
                    0 <= i < all.len() && !(#[trigger] all[i]).valid(now) implies !is_slaac_route(
                    after[k],
                    iface,
                    all[i].cidr,
                    all[i].via_router,
                ) by {
                    if i < at {
                        assert(r(all[i], all[at]));
                    } else if at < i {
                        assert(r(all[at], all[i]));
                    }
                }
            }
        }
    }
}

/// After synchronizing, no learned route that expired is left in the routing table.
pub proof fn sync_drops_expired_routes(
    routes: Seq<Route>,
    slaac: SlaacView,
    iface: IfaceHandle,
    now: Instant,
)
    requires
        tables_ok(slaac),
    ensures
        forall|k: int|
            0 <= k < synced_routes(routes, slaac, iface, now).len() ==> !route_expired(
                #[trigger] synced_routes(routes, slaac, iface, now)[k],
                slaac.routes,
                iface,
                now,
            ),
{
    let kept = route_kept(slaac.routes, iface, now);
    let start = routes.filter(kept);
    assert forall|k: int| 0 <= k < start.len() implies !route_expired(
        #[trigger] start[k],
        slaac.routes,
        iface,
        now,
    ) by {
        lemma_filter_from(routes, kept, k);
    }
    lemma_learned_routes_not_expired(start, slaac.routes, slaac.routes, iface, now);
}

} // verus!

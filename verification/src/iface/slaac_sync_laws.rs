//! What synchronization makes of the addresses and routes, and how routers are solicited.

use super::slaac::{formed_address, PrefixInfo, Route as LearnedRoute, SlaacView};
use super::slaac_solicit::{
    multicast_ethernet, solicitation, solicitation_due, solicitation_outcome, solicited_clock,
    solicited_iface, solicited_inner, solicited_slaac,
};
use super::slaac_sync::{
    addr_kept, formed_under, is_cidr, is_route_of, is_slaac_route, reset_iface, reset_inner,
    route_kept, synced_addrs, synced_iface, synced_inner, synced_routes, with_learned_route,
    with_learned_routes, with_prefix_addr, with_prefix_addrs,
};
use super::state::{is_link_local_ipv6, IfaceView};
use super::{first_half, AddrOrigin, IfaceAddr, IfaceHandle, Medium};
use crate::config::{IFACE_ADDR_COUNT, ROUTE_COUNT};
use crate::driver::{DriverCall, LinkState};
use crate::lists::{lemma_filter_from, lemma_filter_keeps, lemma_position, position};
use crate::route::{Route, RouteOrigin};
use crate::stack::{InnerView, LinkWorkView};
use crate::time::{Clock, Instant};
use crate::wire::format_laws::{
    address_bits_at, bits_at, ethernet_at, fields_of_a_frame, fields_of_a_router_solicitation,
    fields_of_an_ipv6_header, half_bits_at, lemma_bits_of_front,
};
use crate::wire::ip_packet::ipv6_header;
use crate::wire::ndisc::router_solicit;
use crate::wire::{
    EthernetAddress, EthernetProtocol, HardwareAddress, IpAddress, IpCidr, IpProtocol, Ipv6Address,
    Ipv6Cidr,
};
use vstd::prelude::*;

verus! {

/// Whether a prefix is valid and `cidr` is the address formed from it: the prefix is 64 bits
/// long, and the address has them in front and the interface identifier behind.
pub open spec fn forms(
    prefix: (Ipv6Cidr, PrefixInfo),
    hardware_addr: HardwareAddress,
    now: Instant,
    cidr: IpCidr,
) -> bool {
    &&& now.micros < prefix.1.valid_until.micros
    &&& prefix.0.prefix_len == 64
    &&& cidr matches IpCidr::Ipv6(cidr)
    &&& hardware_addr.eui_64() matches Some(id)
    &&& cidr.prefix_len == 64
    &&& cidr.address.bits / 0x1_0000_0000_0000_0000 == prefix.0.address.bits
        / 0x1_0000_0000_0000_0000
    &&& cidr.address.bits % 0x1_0000_0000_0000_0000 == id
}

/// Two halves make one address.
proof fn lemma_forms(
    prefix: (Ipv6Cidr, PrefixInfo),
    hardware_addr: HardwareAddress,
    now: Instant,
    cidr: IpCidr,
)
    ensures
        forms(prefix, hardware_addr, now, cidr) <==> prefix.1.valid(now) && (formed_address(
            prefix.0,
            hardware_addr,
        ) matches Some(address) && cidr == IpCidr::Ipv6(address)),
{
    crate::wire::format_laws::interface_identifiers(hardware_addr);
    if prefix.0.prefix_len == 64 && hardware_addr.eui_64() is Some {
        let id = hardware_addr.eui_64()->0;
        let first = first_half(prefix.0.address);
        let bits = prefix.0.address.bits;
        assert(bits / 0x1_0000_0000_0000_0000 <= 0xffff_ffff_ffff_ffff) by (bit_vector);
        assert(0 <= id < 0x1_0000_0000_0000_0000);
        let whole = first * 0x1_0000_0000_0000_0000 + id;
        assert(0 <= whole <= u128::MAX);
        assert(whole / 0x1_0000_0000_0000_0000 == first);
        assert(whole % 0x1_0000_0000_0000_0000 == id);
        if let IpCidr::Ipv6(found) = cidr {
            let own = found.address.bits as int;
            assert(own == (own / 0x1_0000_0000_0000_0000) * 0x1_0000_0000_0000_0000 + own
                % 0x1_0000_0000_0000_0000);
        }
    }
}

/// Whether the prefix at `index` is the last that forms `cidr`.
pub open spec fn is_last_forming(
    prefixes: Seq<(Ipv6Cidr, PrefixInfo)>,
    hardware_addr: HardwareAddress,
    now: Instant,
    index: int,
    cidr: IpCidr,
) -> bool {
    &&& 0 <= index < prefixes.len()
    &&& forms(prefixes[index], hardware_addr, now, cidr)
    &&& forall|j: int|
        index < j < prefixes.len() ==> !forms(#[trigger] prefixes[j], hardware_addr, now, cidr)
}

/// Whether a prefix forms `cidr`.
pub open spec fn is_formed(
    prefixes: Seq<(Ipv6Cidr, PrefixInfo)>,
    hardware_addr: HardwareAddress,
    now: Instant,
    cidr: IpCidr,
) -> bool {
    exists|i: int|
        0 <= i < prefixes.len() && forms(#[trigger] prefixes[i], hardware_addr, now, cidr)
}

/// Whether the address at `index` is the first of that value.
pub open spec fn is_first_of_its_value(addrs: Seq<IfaceAddr>, index: int) -> bool {
    forall|j: int| 0 <= j < index ==> (#[trigger] addrs[j]).cidr != addrs[index].cidr
}

/// What may become of an address that was there: if it is SLAAC's, and a prefix forms it, it
/// is preferred for as long as the last such prefix is, be that longer or shorter than before.
/// Nothing else about it changes.
pub open spec fn is_refreshed(
    addrs: Seq<IfaceAddr>,
    prefixes: Seq<(Ipv6Cidr, PrefixInfo)>,
    hardware_addr: HardwareAddress,
    now: Instant,
    k: int,
    after: IfaceAddr,
) -> bool {
    &&& after.cidr == addrs[k].cidr
    &&& after.origin == addrs[k].origin
    &&& if addrs[k].origin == AddrOrigin::Slaac && is_first_of_its_value(addrs, k) && is_formed(
        prefixes,
        hardware_addr,
        now,
        addrs[k].cidr,
    ) {
        forall|i: int| #[trigger]
            is_last_forming(prefixes, hardware_addr, now, i, addrs[k].cidr)
                ==> after.preferred_until == Some(prefixes[i].1.preferred_until)
    } else {
        after.preferred_until == addrs[k].preferred_until
    }
}

/// Whether an address is new: SLAAC's, formed from a prefix, preferred for as long as the last
/// such prefix is.
pub open spec fn is_newly_formed(
    prefixes: Seq<(Ipv6Cidr, PrefixInfo)>,
    hardware_addr: HardwareAddress,
    now: Instant,
    addr: IfaceAddr,
) -> bool {
    &&& addr.origin == AddrOrigin::Slaac
    &&& is_formed(prefixes, hardware_addr, now, addr.cidr)
    &&& forall|i: int| #[trigger]
        is_last_forming(prefixes, hardware_addr, now, i, addr.cidr) ==> addr.preferred_until
            == Some(prefixes[i].1.preferred_until)
}

/// Whether an address is among others.
pub open spec fn is_there(addrs: Seq<IfaceAddr>, cidr: IpCidr) -> bool {
    exists|k: int| 0 <= k < addrs.len() && (#[trigger] addrs[k]).cidr == cidr
}

/// Whether the addresses are those that were there, and behind them, as far as there was room,
/// the ones newly formed.
pub open spec fn are_refreshed(
    addrs: Seq<IfaceAddr>,
    prefixes: Seq<(Ipv6Cidr, PrefixInfo)>,
    hardware_addr: HardwareAddress,
    now: Instant,
    after: Seq<IfaceAddr>,
) -> bool {
    &&& addrs.len() <= after.len()
    &&& forall|k: int|
        0 <= k < addrs.len() ==> is_refreshed(
            addrs,
            prefixes,
            hardware_addr,
            now,
            k,
            #[trigger] after[k],
        )
    &&& forall|k: int|
        addrs.len() <= k < after.len() ==> is_newly_formed(
            prefixes,
            hardware_addr,
            now,
            #[trigger] after[k],
        ) && is_first_of_its_value(after, k)
    &&& after.len() > addrs.len() ==> after.len() <= IFACE_ADDR_COUNT
    &&& after.len() < IFACE_ADDR_COUNT ==> forall|i: int, cidr: IpCidr|
        0 <= i < prefixes.len() && #[trigger] forms(prefixes[i], hardware_addr, now, cidr)
            ==> is_there(after, cidr)
}

/// Prefixes that form no address change nothing.
proof fn lemma_last_forming_step(
    prefixes: Seq<(Ipv6Cidr, PrefixInfo)>,
    hardware_addr: HardwareAddress,
    now: Instant,
    cidr: IpCidr,
)
    requires
        prefixes.len() > 0,
    ensures
        !forms(prefixes.last(), hardware_addr, now, cidr) ==> {
            &&& is_formed(prefixes, hardware_addr, now, cidr) <==> is_formed(
                prefixes.drop_last(),
                hardware_addr,
                now,
                cidr,
            )
            &&& forall|i: int| #[trigger]
                is_last_forming(prefixes, hardware_addr, now, i, cidr) ==> is_last_forming(
                    prefixes.drop_last(),
                    hardware_addr,
                    now,
                    i,
                    cidr,
                ) && prefixes.drop_last()[i] == prefixes[i]
        },
        forms(prefixes.last(), hardware_addr, now, cidr) ==> {
            &&& is_formed(prefixes, hardware_addr, now, cidr)
            &&& forall|i: int| #[trigger]
                is_last_forming(prefixes, hardware_addr, now, i, cidr) ==> i == prefixes.len() - 1
        },
{
    let rest = prefixes.drop_last();
    assert(forall|i: int| 0 <= i < rest.len() ==> rest[i] == prefixes[i]);
    if forms(prefixes.last(), hardware_addr, now, cidr) {
        assert(forms(prefixes[prefixes.len() - 1], hardware_addr, now, cidr));
    } else {
        if is_formed(prefixes, hardware_addr, now, cidr) {
            let i = choose|i: int|
                0 <= i < prefixes.len() && forms(#[trigger] prefixes[i], hardware_addr, now, cidr);
            assert(forms(rest[i], hardware_addr, now, cidr));
        }
        if is_formed(rest, hardware_addr, now, cidr) {
            let i = choose|i: int|
                0 <= i < rest.len() && forms(#[trigger] rest[i], hardware_addr, now, cidr);
            assert(forms(prefixes[i], hardware_addr, now, cidr));
        }
        assert forall|i: int| #[trigger]
            is_last_forming(
                prefixes,
                hardware_addr,
                now,
                i,
                cidr,
            ) implies is_last_forming(rest, hardware_addr, now, i, cidr) && rest[i]
            == prefixes[i] by {
            assert(i < rest.len());
            assert forall|j: int| i < j < rest.len() implies !forms(
                #[trigger] rest[j],
                hardware_addr,
                now,
                cidr,
            ) by {
                assert(!forms(prefixes[j], hardware_addr, now, cidr));
            }
        }
    }
}

/// One more prefix.
proof fn lemma_refreshed_step(
    addrs: Seq<IfaceAddr>,
    prefixes: Seq<(Ipv6Cidr, PrefixInfo)>,
    hardware_addr: HardwareAddress,
    now: Instant,
    before: Seq<IfaceAddr>,
)
    requires
        prefixes.len() > 0,
        are_refreshed(addrs, prefixes.drop_last(), hardware_addr, now, before),
    ensures
        are_refreshed(
            addrs,
            prefixes,
            hardware_addr,
            now,
            with_prefix_addr(before, prefixes.last(), hardware_addr, now),
        ),
{
    let rest = prefixes.drop_last();
    let last = prefixes.last();
    let after = with_prefix_addr(before, last, hardware_addr, now);
    let n = prefixes.len() - 1;
    assert forall|cidr: IpCidr| #[trigger] forms(last, hardware_addr, now, cidr) <==> last.1.valid(
        now,
    ) && (formed_address(last.0, hardware_addr) matches Some(address) && cidr == IpCidr::Ipv6(
        address,
    )) by {
        lemma_forms(last, hardware_addr, now, cidr);
    }
    if let Some(address) = formed_address(last.0, hardware_addr) {
        lemma_position(before, is_cidr(address));
    }
    assert(after.len() >= before.len());
    assert forall|k: int| 0 <= k < before.len() implies (#[trigger] after[k]).cidr
        == before[k].cidr && after[k].origin == before[k].origin by {}
    assert forall|k: int| 0 <= k < before.len() && after[k] != before[k] implies forms(
        last,
        hardware_addr,
        now,
        before[k].cidr,
    ) && is_first_of_its_value(before, k) && before[k].origin == AddrOrigin::Slaac
        && #[trigger] after[k].preferred_until == Some(last.1.preferred_until) by {}
    assert forall|k: int|
        0 <= k < before.len() && #[trigger] forms(last, hardware_addr, now, before[k].cidr)
            && is_first_of_its_value(before, k) && before[k].origin
            == AddrOrigin::Slaac implies after[k].preferred_until == Some(
        last.1.preferred_until,
    ) by {
        let address = formed_address(last.0, hardware_addr)->0;
        let p = position(before, is_cidr(address))->0;
        assert(is_cidr(address)(before[k]));
        assert(p == k) by {
            if p < k {
                assert(before[p].cidr == before[k].cidr);
            }
        }
    }
    assert forall|k: int| 0 <= k < addrs.len() implies is_refreshed(
        addrs,
        prefixes,
        hardware_addr,
        now,
        k,
        #[trigger] after[k],
    ) by {
        let cidr = addrs[k].cidr;
        assert(is_refreshed(addrs, rest, hardware_addr, now, k, before[k]));
        lemma_last_forming_step(prefixes, hardware_addr, now, cidr);
        assert(is_first_of_its_value(before, k) <==> is_first_of_its_value(addrs, k)) by {
            assert forall|j: int| 0 <= j < k implies before[j].cidr == addrs[j].cidr by {
                assert(is_refreshed(addrs, rest, hardware_addr, now, j, before[j]));
            }
            if is_first_of_its_value(before, k) {
                assert forall|j: int| 0 <= j < k implies (#[trigger] addrs[j]).cidr
                    != addrs[k].cidr by {
                    assert(before[j].cidr != before[k].cidr);
                }
            }
            if is_first_of_its_value(addrs, k) {
                assert forall|j: int| 0 <= j < k implies (#[trigger] before[j]).cidr
                    != before[k].cidr by {
                    assert(addrs[j].cidr != addrs[k].cidr);
                }
            }
        }
        if forms(last, hardware_addr, now, cidr) {
            assert(forms(last, hardware_addr, now, before[k].cidr));
        } else {
            assert(after[k] == before[k]);
        }
    }
    assert forall|k: int| addrs.len() <= k < after.len() implies is_newly_formed(
        prefixes,
        hardware_addr,
        now,
        #[trigger] after[k],
    ) && is_first_of_its_value(after, k) by {
        lemma_last_forming_step(prefixes, hardware_addr, now, after[k].cidr);
        if k < before.len() {
            assert(is_newly_formed(rest, hardware_addr, now, before[k]));
            assert(is_first_of_its_value(before, k));
            assert forall|j: int| 0 <= j < k implies (#[trigger] after[j]).cidr
                != after[k].cidr by {
                assert(before[j].cidr != before[k].cidr);
            }
            if forms(last, hardware_addr, now, after[k].cidr) {
                assert(forms(last, hardware_addr, now, before[k].cidr));
            } else {
                assert(after[k] == before[k]);
            }
        } else {
            let address = formed_address(last.0, hardware_addr)->0;
            assert(after[k].cidr == IpCidr::Ipv6(address));
            assert(forms(last, hardware_addr, now, after[k].cidr));
            assert forall|j: int| 0 <= j < k implies (#[trigger] after[j]).cidr
                != after[k].cidr by {
                assert(!is_cidr(address)(before[j]));
            }
        }
    }
    if after.len() < IFACE_ADDR_COUNT {
        assert forall|i: int, cidr: IpCidr|
            0 <= i < prefixes.len() && #[trigger] forms(
                prefixes[i],
                hardware_addr,
                now,
                cidr,
            ) implies is_there(after, cidr) by {
            if i < n {
                assert(forms(rest[i], hardware_addr, now, cidr));
                assert(is_there(before, cidr));
                let k = choose|k: int| 0 <= k < before.len() && (#[trigger] before[k]).cidr == cidr;
                assert(after[k].cidr == cidr);
            } else {
                assert(forms(last, hardware_addr, now, cidr));
                let address = formed_address(last.0, hardware_addr)->0;
                match position(before, is_cidr(address)) {
                    Some(p) => {
                        assert(is_cidr(address)(before[p]));
                        assert(after[p].cidr == cidr);
                    },
                    None => {
                        assert(after[after.len() - 1].cidr == cidr);
                    },
                }
            }
        }
    }
}

/// Every prefix in turn.
proof fn lemma_refreshed(
    addrs: Seq<IfaceAddr>,
    prefixes: Seq<(Ipv6Cidr, PrefixInfo)>,
    hardware_addr: HardwareAddress,
    now: Instant,
)
    ensures
        are_refreshed(
            addrs,
            prefixes,
            hardware_addr,
            now,
            with_prefix_addrs(addrs, prefixes, hardware_addr, now),
        ),
    decreases prefixes.len(),
{
    if prefixes.len() > 0 {
        lemma_refreshed(addrs, prefixes.drop_last(), hardware_addr, now);
        lemma_refreshed_step(
            addrs,
            prefixes,
            hardware_addr,
            now,
            with_prefix_addrs(addrs, prefixes.drop_last(), hardware_addr, now),
        );
    } else {
        assert forall|k: int| 0 <= k < addrs.len() implies is_refreshed(
            addrs,
            prefixes,
            hardware_addr,
            now,
            k,
            #[trigger] addrs[k],
        ) by {}
    }
}

/// Whether an address stays: it is not SLAAC's, or no prefix of 64 bits that it starts with is
/// over.
pub open spec fn stays(
    addr: IfaceAddr,
    prefixes: Seq<(Ipv6Cidr, PrefixInfo)>,
    now: Instant,
) -> bool {
    addr.origin == AddrOrigin::Slaac ==> (addr.cidr matches IpCidr::Ipv6(cidr) ==> forall|i: int|
        0 <= i < prefixes.len() && (#[trigger] prefixes[i]).1.valid_until.micros <= now.micros
            && prefixes[i].0.prefix_len == 64 ==> cidr.address.bits / 0x1_0000_0000_0000_0000
            != prefixes[i].0.address.bits / 0x1_0000_0000_0000_0000)
}

/// Synchronization refreshes the addresses of SLAAC's, forms those that are missing, and then
/// drops the ones that do not stay.
pub proof fn sync_refreshes_addresses(
    addrs: Seq<IfaceAddr>,
    slaac: SlaacView,
    hardware_addr: HardwareAddress,
    now: Instant,
) -> (refreshed: Seq<IfaceAddr>)
    ensures
        are_refreshed(addrs, slaac.prefix, hardware_addr, now, refreshed),
        synced_addrs(addrs, slaac, hardware_addr, now) == refreshed.filter(
            |addr: IfaceAddr| stays(addr, slaac.prefix, now),
        ),
{
    let refreshed = with_prefix_addrs(addrs, slaac.prefix, hardware_addr, now);
    lemma_refreshed(addrs, slaac.prefix, hardware_addr, now);
    let p = |addr: IfaceAddr| stays(addr, slaac.prefix, now);
    assert forall|addr: IfaceAddr| #[trigger] p(addr) == addr_kept(slaac.prefix, now)(addr) by {
        if let IpCidr::Ipv6(cidr) = addr.cidr {
            assert forall|i: int| 0 <= i < slaac.prefix.len() implies (formed_under(
                (#[trigger] slaac.prefix[i]).0,
                cidr.address,
            ) <==> slaac.prefix[i].0.prefix_len == 64 && cidr.address.bits
                / 0x1_0000_0000_0000_0000 == slaac.prefix[i].0.address.bits
                / 0x1_0000_0000_0000_0000) by {}
        }
    }
    assert(p =~= addr_kept(slaac.prefix, now));
    refreshed
}

/// After synchronization the address of a valid prefix is preferred for as long as the prefix
/// is, even if that is shorter than before, unless it is not SLAAC's.
pub proof fn sync_takes_over_the_preferred_lifetime(
    addrs: Seq<IfaceAddr>,
    slaac: SlaacView,
    hardware_addr: HardwareAddress,
    now: Instant,
    index: int,
    k: int,
)
    requires
        0 <= k < addrs.len(),
        addrs[k].origin == AddrOrigin::Slaac,
        is_first_of_its_value(addrs, k),
        is_last_forming(slaac.prefix, hardware_addr, now, index, addrs[k].cidr),
        stays(addrs[k], slaac.prefix, now),
    ensures
        synced_addrs(addrs, slaac, hardware_addr, now).contains(
            (IfaceAddr {
                cidr: addrs[k].cidr,
                origin: AddrOrigin::Slaac,
                preferred_until: Some(slaac.prefix[index].1.preferred_until),
            }),
        ),
{
    let refreshed = sync_refreshes_addresses(addrs, slaac, hardware_addr, now);
    let p = |addr: IfaceAddr| stays(addr, slaac.prefix, now);
    assert(is_refreshed(addrs, slaac.prefix, hardware_addr, now, k, refreshed[k]));
    assert(forms(slaac.prefix[index], hardware_addr, now, addrs[k].cidr));
    assert(is_formed(slaac.prefix, hardware_addr, now, addrs[k].cidr));
    assert(p(refreshed[k])) by {
        assert(stays(addrs[k], slaac.prefix, now));
    }
    lemma_filter_keeps(refreshed, p, k);
}

/// Whether a route of the table is SLAAC's, on the interface, to where a learned route leads
/// and through the same router.
pub open spec fn stands_for(route: Route, learned: LearnedRoute, iface: IfaceHandle) -> bool {
    &&& route.origin == RouteOrigin::Slaac
    &&& route.iface == iface
    &&& route.cidr == IpCidr::Ipv6(learned.cidr)
    &&& route.via_router == IpAddress::Ipv6(learned.via_router)
}

/// Whether a learned route is valid and a route of the table stands for it.
pub open spec fn keeps_up(
    learned: LearnedRoute,
    iface: IfaceHandle,
    now: Instant,
    route: Route,
) -> bool {
    now.micros < learned.valid_until.micros && stands_for(route, learned, iface)
}

/// Whether the learned route at `index` is the last that keeps a route up.
pub open spec fn is_last_keeping(
    learned: Seq<LearnedRoute>,
    iface: IfaceHandle,
    now: Instant,
    index: int,
    route: Route,
) -> bool {
    &&& 0 <= index < learned.len()
    &&& keeps_up(learned[index], iface, now, route)
    &&& forall|j: int|
        index < j < learned.len() ==> !keeps_up(#[trigger] learned[j], iface, now, route)
}

/// Whether a learned route keeps a route up.
pub open spec fn is_kept_up(
    learned: Seq<LearnedRoute>,
    iface: IfaceHandle,
    now: Instant,
    route: Route,
) -> bool {
    exists|i: int| 0 <= i < learned.len() && keeps_up(#[trigger] learned[i], iface, now, route)
}

/// Whether two routes of the table are alike but for their lifetimes.
pub open spec fn is_same_way(a: Route, b: Route) -> bool {
    a.cidr == b.cidr && a.via_router == b.via_router && a.iface == b.iface && a.origin == b.origin
}

/// Whether the route at `index` is the first that leads the same way.
pub open spec fn is_first_of_its_way(routes: Seq<Route>, index: int) -> bool {
    forall|j: int| 0 <= j < index ==> !is_same_way(#[trigger] routes[j], routes[index])
}

/// What may become of a route that was there: if a learned route keeps it up, it expires with
/// the last such route. Nothing else about it changes.
pub open spec fn is_prolonged(
    routes: Seq<Route>,
    learned: Seq<LearnedRoute>,
    iface: IfaceHandle,
    now: Instant,
    k: int,
    after: Route,
) -> bool {
    &&& is_same_way(after, routes[k])
    &&& after.preferred_until == routes[k].preferred_until
    &&& if is_first_of_its_way(routes, k) && is_kept_up(learned, iface, now, routes[k]) {
        forall|i: int| #[trigger]
            is_last_keeping(learned, iface, now, i, routes[k]) ==> after.expires_at == Some(
                learned[i].valid_until,
            )
    } else {
        after.expires_at == routes[k].expires_at
    }
}

/// Whether a route is new: a learned route keeps it up, and it expires with the last such
/// route.
pub open spec fn is_newly_installed(
    learned: Seq<LearnedRoute>,
    iface: IfaceHandle,
    now: Instant,
    route: Route,
) -> bool {
    &&& route.preferred_until is None
    &&& is_kept_up(learned, iface, now, route)
    &&& forall|i: int| #[trigger]
        is_last_keeping(learned, iface, now, i, route) ==> route.expires_at == Some(
            learned[i].valid_until,
        )
}

/// Whether a learned route has one in the table that stands for it.
pub open spec fn is_in_table(
    routes: Seq<Route>,
    learned: LearnedRoute,
    iface: IfaceHandle,
) -> bool {
    exists|k: int| 0 <= k < routes.len() && stands_for(#[trigger] routes[k], learned, iface)
}

/// Whether the routes are those that were there, and behind them, as far as there was room,
/// the ones newly learned.
pub open spec fn are_prolonged(
    routes: Seq<Route>,
    learned: Seq<LearnedRoute>,
    iface: IfaceHandle,
    now: Instant,
    after: Seq<Route>,
) -> bool {
    &&& routes.len() <= after.len()
    &&& forall|k: int|
        0 <= k < routes.len() ==> is_prolonged(routes, learned, iface, now, k, #[trigger] after[k])
    &&& forall|k: int|
        routes.len() <= k < after.len() ==> is_newly_installed(
            learned,
            iface,
            now,
            #[trigger] after[k],
        ) && is_first_of_its_way(after, k)
    &&& after.len() > routes.len() ==> after.len() <= ROUTE_COUNT
    &&& after.len() < ROUTE_COUNT ==> forall|i: int|
        0 <= i < learned.len() && now.micros < (#[trigger] learned[i]).valid_until.micros
            ==> is_in_table(after, learned[i], iface)
}

/// One more learned route, that does or does not keep a route up.
proof fn lemma_last_keeping_step(
    learned: Seq<LearnedRoute>,
    iface: IfaceHandle,
    now: Instant,
    route: Route,
)
    requires
        learned.len() > 0,
    ensures
        !keeps_up(learned.last(), iface, now, route) ==> {
            &&& is_kept_up(learned, iface, now, route) <==> is_kept_up(
                learned.drop_last(),
                iface,
                now,
                route,
            )
            &&& forall|i: int| #[trigger]
                is_last_keeping(learned, iface, now, i, route) ==> is_last_keeping(
                    learned.drop_last(),
                    iface,
                    now,
                    i,
                    route,
                ) && learned.drop_last()[i] == learned[i]
        },
        keeps_up(learned.last(), iface, now, route) ==> {
            &&& is_kept_up(learned, iface, now, route)
            &&& forall|i: int| #[trigger]
                is_last_keeping(learned, iface, now, i, route) ==> i == learned.len() - 1
        },
{
    let rest = learned.drop_last();
    assert(forall|i: int| 0 <= i < rest.len() ==> rest[i] == learned[i]);
    if keeps_up(learned.last(), iface, now, route) {
        assert(keeps_up(learned[learned.len() - 1], iface, now, route));
    } else {
        if is_kept_up(learned, iface, now, route) {
            let i = choose|i: int|
                0 <= i < learned.len() && keeps_up(#[trigger] learned[i], iface, now, route);
            assert(keeps_up(rest[i], iface, now, route));
        }
        if is_kept_up(rest, iface, now, route) {
            let i = choose|i: int|
                0 <= i < rest.len() && keeps_up(#[trigger] rest[i], iface, now, route);
            assert(keeps_up(learned[i], iface, now, route));
        }
        assert forall|i: int| #[trigger]
            is_last_keeping(learned, iface, now, i, route) implies is_last_keeping(
            rest,
            iface,
            now,
            i,
            route,
        ) && rest[i] == learned[i] by {
            assert(i < rest.len());
            assert forall|j: int| i < j < rest.len() implies !keeps_up(
                #[trigger] rest[j],
                iface,
                now,
                route,
            ) by {
                assert(!keeps_up(learned[j], iface, now, route));
            }
        }
    }
}

/// Routes that lead the same way are kept up by the same learned routes.
proof fn lemma_same_way(
    learned: Seq<LearnedRoute>,
    iface: IfaceHandle,
    now: Instant,
    a: Route,
    b: Route,
)
    requires
        is_same_way(a, b),
    ensures
        is_kept_up(learned, iface, now, a) <==> is_kept_up(learned, iface, now, b),
        forall|i: int| #[trigger]
            is_last_keeping(learned, iface, now, i, a) <==> is_last_keeping(
                learned,
                iface,
                now,
                i,
                b,
            ),
{
    assert(forall|i: int|
        0 <= i < learned.len() ==> (keeps_up(#[trigger] learned[i], iface, now, a) <==> keeps_up(
            learned[i],
            iface,
            now,
            b,
        )));
    if is_kept_up(learned, iface, now, a) {
        let i = choose|i: int|
            0 <= i < learned.len() && keeps_up(#[trigger] learned[i], iface, now, a);
        assert(keeps_up(learned[i], iface, now, b));
    }
    if is_kept_up(learned, iface, now, b) {
        let i = choose|i: int|
            0 <= i < learned.len() && keeps_up(#[trigger] learned[i], iface, now, b);
        assert(keeps_up(learned[i], iface, now, a));
    }
}

/// One more learned route.
proof fn lemma_prolonged_step(
    routes: Seq<Route>,
    learned: Seq<LearnedRoute>,
    iface: IfaceHandle,
    now: Instant,
    before: Seq<Route>,
)
    requires
        learned.len() > 0,
        are_prolonged(routes, learned.drop_last(), iface, now, before),
    ensures
        are_prolonged(
            routes,
            learned,
            iface,
            now,
            with_learned_route(before, learned.last(), iface, now),
        ),
{
    let rest = learned.drop_last();
    let last = learned.last();
    let after = with_learned_route(before, last, iface, now);
    let n = learned.len() - 1;
    let p = is_route_of(last, iface);
    lemma_position(before, p);
    assert(after.len() >= before.len());
    assert forall|k: int| 0 <= k < before.len() implies is_same_way(#[trigger] after[k], before[k])
        && after[k].preferred_until == before[k].preferred_until by {}
    assert forall|k: int| 0 <= k < before.len() && after[k] != before[k] implies keeps_up(
        last,
        iface,
        now,
        before[k],
    ) && is_first_of_its_way(before, k) && #[trigger] after[k].expires_at == Some(
        last.valid_until,
    ) by {
        assert(position(before, p) == Some(k));
        assert forall|j: int| 0 <= j < k implies !is_same_way(
            #[trigger] before[j],
            before[k],
        ) by {
            assert(!p(before[j]));
        }
    }
    assert forall|k: int|
        0 <= k < before.len() && #[trigger] keeps_up(last, iface, now, before[k])
            && is_first_of_its_way(before, k) implies after[k].expires_at == Some(
        last.valid_until,
    ) by {
        let at = position(before, p)->0;
        assert(p(before[k]));
        assert(at == k) by {
            if at < k {
                assert(is_same_way(before[at], before[k]));
            }
        }
    }
    assert forall|k: int| 0 <= k < routes.len() implies is_prolonged(
        routes,
        learned,
        iface,
        now,
        k,
        #[trigger] after[k],
    ) by {
        assert(is_prolonged(routes, rest, iface, now, k, before[k]));
        lemma_last_keeping_step(learned, iface, now, routes[k]);
        assert(is_first_of_its_way(before, k) <==> is_first_of_its_way(routes, k)) by {
            assert forall|j: int| 0 <= j < k implies is_same_way(
                #[trigger] before[j],
                routes[j],
            ) by {
                assert(is_prolonged(routes, rest, iface, now, j, before[j]));
            }
            if is_first_of_its_way(before, k) {
                assert forall|j: int| 0 <= j < k implies !is_same_way(
                    #[trigger] routes[j],
                    routes[k],
                ) by {
                    assert(!is_same_way(before[j], before[k]));
                }
            }
            if is_first_of_its_way(routes, k) {
                assert forall|j: int| 0 <= j < k implies !is_same_way(
                    #[trigger] before[j],
                    before[k],
                ) by {
                    assert(!is_same_way(routes[j], routes[k]));
                }
            }
        }
        if keeps_up(last, iface, now, routes[k]) {
            assert(keeps_up(last, iface, now, before[k]));
        } else {
            assert(!keeps_up(last, iface, now, before[k]));
            assert(after[k] == before[k]);
        }
    }
    assert forall|k: int| routes.len() <= k < after.len() implies is_newly_installed(
        learned,
        iface,
        now,
        #[trigger] after[k],
    ) && is_first_of_its_way(after, k) by {
        lemma_last_keeping_step(learned, iface, now, after[k]);
        if k < before.len() {
            assert(is_newly_installed(rest, iface, now, before[k]));
            assert(is_first_of_its_way(before, k));
            lemma_same_way(rest, iface, now, after[k], before[k]);
            assert forall|j: int| 0 <= j < k implies !is_same_way(
                #[trigger] after[j],
                after[k],
            ) by {
                assert(!is_same_way(before[j], before[k]));
            }
            if keeps_up(last, iface, now, after[k]) {
                assert(keeps_up(last, iface, now, before[k]));
            } else {
                assert(!keeps_up(last, iface, now, before[k]));
                assert(after[k] == before[k]);
            }
        } else {
            assert(keeps_up(last, iface, now, after[k]));
            assert forall|j: int| 0 <= j < k implies !is_same_way(
                #[trigger] after[j],
                after[k],
            ) by {
                assert(!p(before[j]));
            }
        }
    }
    if after.len() < ROUTE_COUNT {
        assert forall|i: int|
            0 <= i < learned.len() && now.micros < (
            #[trigger] learned[i]).valid_until.micros implies is_in_table(
            after,
            learned[i],
            iface,
        ) by {
            if i < n {
                assert(rest[i] == learned[i]);
                assert(is_in_table(before, rest[i], iface));
                let k = choose|k: int|
                    0 <= k < before.len() && stands_for(#[trigger] before[k], rest[i], iface);
                assert(stands_for(after[k], learned[i], iface));
            } else {
                match position(before, p) {
                    Some(at) => {
                        assert(p(before[at]));
                        assert(stands_for(after[at], learned[i], iface));
                    },
                    None => {
                        assert(stands_for(after[after.len() - 1], learned[i], iface));
                    },
                }
            }
        }
    }
}

/// Every learned route in turn.
proof fn lemma_prolonged(
    routes: Seq<Route>,
    learned: Seq<LearnedRoute>,
    iface: IfaceHandle,
    now: Instant,
)
    ensures
        are_prolonged(
            routes,
            learned,
            iface,
            now,
            with_learned_routes(routes, learned, iface, now),
        ),
    decreases learned.len(),
{
    if learned.len() > 0 {
        lemma_prolonged(routes, learned.drop_last(), iface, now);
        lemma_prolonged_step(
            routes,
            learned,
            iface,
            now,
            with_learned_routes(routes, learned.drop_last(), iface, now),
        );
    } else {
        assert forall|k: int| 0 <= k < routes.len() implies is_prolonged(
            routes,
            learned,
            iface,
            now,
            k,
            #[trigger] routes[k],
        ) by {}
    }
}

/// Whether a route stays: it stands for no learned route that is over.
pub open spec fn route_stays(
    route: Route,
    learned: Seq<LearnedRoute>,
    iface: IfaceHandle,
    now: Instant,
) -> bool {
    forall|i: int|
        0 <= i < learned.len() && (#[trigger] learned[i]).valid_until.micros <= now.micros
            ==> !stands_for(route, learned[i], iface)
}

/// Synchronization drops the routes that do not stay, prolongs the others, and installs those
/// that are missing.
pub proof fn sync_prolongs_routes(
    routes: Seq<Route>,
    slaac: SlaacView,
    iface: IfaceHandle,
    now: Instant,
)
    ensures
        are_prolonged(
            routes.filter(|route: Route| route_stays(route, slaac.routes, iface, now)),
            slaac.routes,
            iface,
            now,
            synced_routes(routes, slaac, iface, now),
        ),
{
    let p = |route: Route| route_stays(route, slaac.routes, iface, now);
    assert forall|route: Route| #[trigger] p(route) == route_kept(slaac.routes, iface, now)(
        route,
    ) by {
        assert forall|i: int| 0 <= i < slaac.routes.len() implies (is_slaac_route(
            route,
            iface,
            (#[trigger] slaac.routes[i]).cidr,
            slaac.routes[i].via_router,
        ) <==> stands_for(route, slaac.routes[i], iface)) by {}
    }
    assert(p =~= route_kept(slaac.routes, iface, now));
    lemma_prolonged(routes.filter(p), slaac.routes, iface, now);
}

/// Synchronization is about addresses, routes and SLAAC alone. It goes up in the generation of
/// the configuration. Where SLAAC is off, nothing happens.
pub proof fn sync_changes_nothing_else(iface: IfaceView, inner: InnerView)
    ensures
        ({
            let now = inner.now;
            let after = synced_iface(iface, now);
            let shared = synced_inner(inner, iface);
            &&& iface.slaac is None ==> after == iface && shared == inner
            &&& iface.slaac matches Some(slaac) ==> {
                &&& after.ip_addrs == synced_addrs(iface.ip_addrs, slaac, iface.hardware_addr, now)
                &&& after.slaac == Some(slaac.updated(now))
                &&& after.config_generation == (iface.config_generation + 1) % 0x1_0000_0000
                &&& after.waker == iface.waker.fired()
                &&& shared.routes == synced_routes(inner.routes, slaac, iface.handle, now)
            }
            &&& shared.now == inner.now
            &&& shared.work == inner.work
            &&& after.handle == iface.handle
            &&& after.medium == iface.medium
            &&& after.caps == iface.caps
            &&& after.hardware_addr == iface.hardware_addr
            &&& after.dhcpv4_server == iface.dhcpv4_server
            &&& after.last_link_state == iface.last_link_state
            &&& after.fragments_pending == iface.fragments_pending
            &&& after.calls == iface.calls
        }),
{
}

/// Turning SLAAC off takes away its addresses and its routes on the interface, and no others,
/// and forgets the neighbors if there were such addresses.
pub proof fn reset_takes_back_what_slaac_gave(iface: IfaceView, inner: InnerView)
    requires
        iface.slaac is Some,
    ensures
        ({
            let after = reset_iface(iface);
            let shared = reset_inner(inner, iface);
            &&& after.slaac is None
            &&& after.config_generation == (iface.config_generation + 1) % 0x1_0000_0000
            &&& after.waker == iface.waker.fired()
            &&& forall|k: int|
                0 <= k < after.ip_addrs.len() ==> (#[trigger] after.ip_addrs[k]).origin
                    != AddrOrigin::Slaac && iface.ip_addrs.contains(after.ip_addrs[k])
            &&& forall|k: int|
                0 <= k < iface.ip_addrs.len() && (#[trigger] iface.ip_addrs[k]).origin
                    != AddrOrigin::Slaac ==> after.ip_addrs.contains(iface.ip_addrs[k])
            &&& forall|k: int|
                0 <= k < shared.routes.len() ==> !((#[trigger] shared.routes[k]).origin
                    == RouteOrigin::Slaac && shared.routes[k].iface == iface.handle)
                    && inner.routes.contains(shared.routes[k])
            &&& forall|k: int|
                0 <= k < inner.routes.len() && !((#[trigger] inner.routes[k]).origin
                    == RouteOrigin::Slaac && inner.routes[k].iface == iface.handle)
                    ==> shared.routes.contains(inner.routes[k])
            &&& shared.now == inner.now
            &&& shared.work == if exists|k: int|
                0 <= k < iface.ip_addrs.len() && (#[trigger] iface.ip_addrs[k]).origin
                    == AddrOrigin::Slaac {
                inner.work.push(LinkWorkView::Purge { iface: iface.handle })
            } else {
                inner.work
            }
            &&& after.handle == iface.handle
            &&& after.medium == iface.medium
            &&& after.caps == iface.caps
            &&& after.hardware_addr == iface.hardware_addr
            &&& after.dhcpv4_server == iface.dhcpv4_server
            &&& after.last_link_state == iface.last_link_state
            &&& after.fragments_pending == iface.fragments_pending
            &&& after.calls == iface.calls
        }),
{
    let after = reset_iface(iface);
    let shared = reset_inner(inner, iface);
    let p = |addr: IfaceAddr| addr.origin != AddrOrigin::Slaac;
    let q = |route: Route| !(route.origin == RouteOrigin::Slaac && route.iface == iface.handle);
    assert(after.ip_addrs == iface.ip_addrs.filter(p));
    assert(shared.routes == inner.routes.filter(q));
    assert forall|k: int| 0 <= k < after.ip_addrs.len() implies (
    #[trigger] after.ip_addrs[k]).origin != AddrOrigin::Slaac && iface.ip_addrs.contains(
        after.ip_addrs[k],
    ) by {
        lemma_filter_from(iface.ip_addrs, p, k);
    }
    assert forall|k: int|
        0 <= k < iface.ip_addrs.len() && (#[trigger] iface.ip_addrs[k]).origin
            != AddrOrigin::Slaac implies after.ip_addrs.contains(iface.ip_addrs[k]) by {
        lemma_filter_keeps(iface.ip_addrs, p, k);
    }
    assert forall|k: int| 0 <= k < shared.routes.len() implies !((
    #[trigger] shared.routes[k]).origin == RouteOrigin::Slaac && shared.routes[k].iface
        == iface.handle) && inner.routes.contains(shared.routes[k]) by {
        lemma_filter_from(inner.routes, q, k);
    }
    assert forall|k: int|
        0 <= k < inner.routes.len() && !((#[trigger] inner.routes[k]).origin == RouteOrigin::Slaac
            && inner.routes[k].iface == iface.handle) implies shared.routes.contains(
        inner.routes[k],
    ) by {
        lemma_filter_keeps(inner.routes, q, k);
    }
}

/// A solicitation goes to `ff02::2`, with a hop limit of 255, and carries a router solicitation
/// message.
pub proof fn solicitation_goes_to_all_routers(iface: IfaceView, src: Ipv6Address)
    ensures
        ({
            let packet = solicitation(iface, src);
            let all_routers = Ipv6Address { bits: 0xff02_0000_0000_0000_0000_0000_0000_0002 };
            &&& packet.bytes.len() >= 48
            &&& packet.bytes[0] == 0x60
            &&& half_bits_at(packet.bytes, 4) == packet.bytes.len() - 40
            &&& packet.bytes[6] == 58
            &&& packet.bytes[7] == 255
            &&& address_bits_at(packet.bytes, 8) == src.bits
            &&& address_bits_at(packet.bytes, 24) == all_routers.bits
            &&& packet.bytes.skip(40) == router_solicit(
                src,
                all_routers,
                iface.hardware_addr,
                iface.caps.checksum.icmpv6.tx,
            )
            &&& packet.meta.id == 0
            &&& packet.meta.timestamp is None
            &&& !packet.meta.request_timestamp
        }),
{
    let all_routers = Ipv6Address { bits: 0xff02_0000_0000_0000_0000_0000_0000_0002 };
    let offload = iface.caps.checksum.icmpv6.tx;
    let message = router_solicit(src, all_routers, iface.hardware_addr, offload);
    fields_of_a_router_solicitation(src, all_routers, iface.hardware_addr, offload);
    assert(Ipv6Address::all_routers() == all_routers);
    lemma_message_in_a_packet(src, all_routers, message);
}

/// The header of a message is in front of it.
proof fn lemma_message_in_a_packet(src: Ipv6Address, dst: Ipv6Address, message: Seq<u8>)
    requires
        message.len() <= 0xffff,
    ensures
        ({
            let packet = ipv6_header(src, dst, IpProtocol(58), 255, message.len() as int) + message;
            &&& packet.len() == 40 + message.len()
            &&& packet[0] == 0x60
            &&& half_bits_at(packet, 4) == message.len()
            &&& packet[6] == 58
            &&& packet[7] == 255
            &&& address_bits_at(packet, 8) == src.bits
            &&& address_bits_at(packet, 24) == dst.bits
            &&& packet.skip(40) == message
        }),
{
    let header = ipv6_header(src, dst, IpProtocol(58), 255, message.len() as int);
    let packet = header + message;
    fields_of_an_ipv6_header(src, dst, IpProtocol(58), 255, message.len() as int);
    assert(packet.skip(40) =~= message);
    assert forall|i: int| 0 <= i < 40 implies #[trigger] packet[i] == header[i] by {}
    lemma_bits_of_front(packet, header, 8);
    lemma_bits_of_front(packet, header, 24);
    assert(bits_at(header, 0) == 0x6000_0000);
    assert(header[0] == 0x60);
}

/// A solicitation is due if SLAAC is on, the link is up, there is an address of `fe80::/10` to
/// send from, and its time has come. It uses up one of those left, even if there was no packet
/// buffer.
pub proof fn solicitation_waits_for_an_address_and_a_link(iface: IfaceView, clock: Clock)
    ensures
        solicitation_due(iface, clock) <==> (iface.slaac matches Some(slaac)
            && iface.last_link_state == LinkState::Up && slaac.solicit_at().micros
            <= clock.now.micros && exists|k: int|
            0 <= k < iface.ip_addrs.len() && is_link_local((#[trigger] iface.ip_addrs[k]).cidr)),
{
    let p = is_link_local_ipv6();
    lemma_position(iface.ip_addrs, p);
    assert forall|k: int| 0 <= k < iface.ip_addrs.len() implies (p(iface.ip_addrs[k])
        <==> is_link_local((#[trigger] iface.ip_addrs[k]).cidr)) by {}
}

/// Whether this is an address of `fe80::/10`.
pub open spec fn is_link_local(cidr: IpCidr) -> bool {
    cidr matches IpCidr::Ipv6(cidr) && 0xfe80_0000_0000_0000_0000_0000_0000_0000
        <= cidr.address.bits < 0xfec0_0000_0000_0000_0000_0000_0000_0000
}

/// On Ethernet a solicitation goes out in one frame to `33:33:00:00:00:02`, where there are no
/// frames as it is, and on IEEE 802.15.4 it is left to the link layer. Without a packet buffer
/// nothing goes out.
pub proof fn solicitation_goes_out_once(
    iface: IfaceView,
    inner: InnerView,
    src: Ipv6Address,
    clock: Clock,
    has_buf: bool,
)
    requires
        iface.wf(),
        iface.slaac is Some,
    ensures
        ({
            let after = solicited_iface(iface, src, clock, has_buf);
            let shared = solicited_inner(inner, iface, src, has_buf);
            let packet = solicitation(iface, src);
            &&& after.slaac == Some(iface.slaac->0.solicited(clock.now))
            &&& after == (IfaceView { slaac: after.slaac, calls: after.calls, ..iface })
            &&& shared == (InnerView { work: shared.work, ..inner })
            &&& !has_buf ==> after.calls == iface.calls && shared.work == inner.work
            &&& has_buf && iface.medium == Medium::Ip ==> after.calls == iface.calls.push(
                DriverCall::Transmit(packet),
            ) && shared.work == inner.work
            &&& has_buf && iface.medium == Medium::Ieee802154 ==> after.calls == iface.calls
                && shared.work == inner.work.push(
                LinkWorkView::SendIp {
                    iface: iface.handle,
                    next_hop: IpAddress::Ipv6(
                        Ipv6Address { bits: 0xff02_0000_0000_0000_0000_0000_0000_0002 },
                    ),
                    packet,
                },
            )
            &&& has_buf && iface.medium == Medium::Ethernet ==> {
                &&& shared.work == inner.work
                &&& after.calls.drop_last() == iface.calls
                &&& after.calls.len() == iface.calls.len() + 1
                &&& after.calls.last() matches DriverCall::Transmit(frame)
                &&& ethernet_at(frame.bytes, 0) == EthernetAddress(0x33, 0x33, 0, 0, 0, 2)
                &&& iface.hardware_addr == HardwareAddress::Ethernet(ethernet_at(frame.bytes, 6))
                &&& half_bits_at(frame.bytes, 12) == 0x86dd
                &&& frame.bytes.skip(14) == packet.bytes
                &&& frame.meta == packet.meta
            }
        }),
{
    if has_buf && iface.medium == Medium::Ethernet {
        let after = solicited_iface(iface, src, clock, has_buf);
        let dst = multicast_ethernet(Ipv6Address::all_routers());
        assert(dst == EthernetAddress(0x33, 0x33, 0, 0, 0, 2));
        fields_of_a_frame(
            dst,
            iface.hardware_addr->Ethernet_0,
            EthernetProtocol(0x86dd),
            solicitation(iface, src).bytes,
        );
        assert(after.calls.drop_last() =~= iface.calls);
    }
}

/// A multicast address is sent to `33:33` and its low 32 bits.
pub proof fn multicast_goes_to_its_low_bits(dst: Ipv6Address)
    ensures
        ({
            let EthernetAddress(a, b, c, d, e, f) = multicast_ethernet(dst);
            &&& a == 0x33
            &&& b == 0x33
            &&& c * 0x100_0000 + d * 0x1_0000 + e * 0x100 + f == dst.bits % 0x1_0000_0000
        }),
{
    let bits = dst.bits;
    assert((bits / 0x100_0000 % 256) * 0x100_0000 + (bits / 0x1_0000 % 256) * 0x1_0000 + (bits
        / 0x100 % 256) * 0x100 + bits % 256 == bits % 0x1_0000_0000) by (bit_vector);
}

/// A poll waits for the next solicitation, and while solicitations wait for a link or an
/// address, it does not. It solicits if and only if a solicitation is due, from the first
/// address of `fe80::/10`.
pub proof fn poll_waits_for_the_next_solicitation(
    iface: IfaceView,
    inner: InnerView,
    clock: Clock,
    has_buf: bool,
    after: IfaceView,
    shared: InnerView,
)
    requires
        iface.slaac is Some,
        solicitation_outcome(iface, inner, clock, has_buf, after, shared),
    ensures
        ({
            let slaac = iface.slaac->0;
            let ready = iface.last_link_state == LinkState::Up && exists|k: int|
                0 <= k < iface.ip_addrs.len() && is_link_local((#[trigger] iface.ip_addrs[k]).cidr);
            let due = ready && slaac.solicit_at().micros <= clock.now.micros;
            let next = solicited_clock(iface, clock);
            &&& next.now == clock.now
            &&& !ready ==> next == clock
            &&& ready && !due ==> next.next == clock.next.earlier_of(slaac.solicit_at())
            &&& due ==> next.next == clock.next.earlier_of(slaac.solicited(clock.now).solicit_at())
            &&& solicited_slaac(iface, clock) == Some(
                if due {
                    slaac.solicited(clock.now)
                } else {
                    slaac
                },
            )
            &&& !due ==> after == iface && shared == inner
            &&& due ==> exists|k: int| #[trigger]
                is_first_link_local(iface.ip_addrs, k) && {
                    let src = iface.ip_addrs[k].cidr->Ipv6_0.address;
                    &&& after == solicited_iface(iface, src, clock, has_buf)
                    &&& shared == solicited_inner(inner, iface, src, has_buf)
                }
        }),
{
    solicitation_waits_for_an_address_and_a_link(iface, clock);
    let p = is_link_local_ipv6();
    lemma_position(iface.ip_addrs, p);
    assert forall|k: int| 0 <= k < iface.ip_addrs.len() implies (p(iface.ip_addrs[k])
        <==> is_link_local((#[trigger] iface.ip_addrs[k]).cidr)) by {}
    if solicitation_due(iface, clock) {
        let k = position(iface.ip_addrs, p)->0;
        assert(is_first_link_local(iface.ip_addrs, k));
    }
}

/// Whether the address at `index` is the first of `fe80::/10`.
pub open spec fn is_first_link_local(addrs: Seq<IfaceAddr>, index: int) -> bool {
    &&& 0 <= index < addrs.len()
    &&& is_link_local(addrs[index].cidr)
    &&& forall|j: int| 0 <= j < index ==> !is_link_local((#[trigger] addrs[j]).cidr)
}

} // verus!

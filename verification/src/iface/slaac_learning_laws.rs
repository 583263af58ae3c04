//! What SLAAC learns from router advertisements, and what becomes of it.

use super::slaac::{
    asked_all, ipv6_default, of_prefix, prefix_ends, prefix_position, route_ends, route_position,
    some_passed, PrefixInfo, Route as LearnedRoute, SlaacConfig, SlaacView,
};
use super::slaac_laws::{lemma_told_prefixes_ok, tables_ok};
use crate::config::{SLAAC_PREFIX_COUNT, SLAAC_ROUTER_COUNT};
use crate::lists::{lemma_filter_from, lemma_filter_keeps, lemma_position, position};
use crate::time::{Clock, Duration, Instant};
use crate::wire::ndisc::{NdiscRouterFlags, PrefixInformation};
use crate::wire::{Ipv6Address, Ipv6Cidr};
use vstd::prelude::*;

verus! {

/// Whether addresses may be formed from an advertised prefix: its second highest flag says
/// so, it is neither of `fe80::/10` nor of `ff00::/8` nor longer than an address, and it is
/// not preferred for longer than it is valid.
pub open spec fn may_form_addresses(prefix: PrefixInformation) -> bool {
    &&& (prefix.flags.bits / 64) % 2 == 1
    &&& prefix.prefix_len <= 128
    &&& !(0xfe80_0000_0000_0000_0000_0000_0000_0000 <= prefix.prefix.bits
        < 0xfec0_0000_0000_0000_0000_0000_0000_0000)
    &&& prefix.prefix.bits < 0xff00_0000_0000_0000_0000_0000_0000_0000
    &&& prefix.preferred_lifetime.micros <= prefix.valid_lifetime.micros
}

/// A prefix is acceptable if and only if addresses may be formed from it.
pub proof fn acceptable_prefixes(prefix: PrefixInformation)
    ensures
        prefix.acceptable() <==> may_form_addresses(prefix),
{
}

/// Whether an option is about a prefix.
pub open spec fn is_about(option: PrefixInformation, cidr: Ipv6Cidr) -> bool {
    option.prefix == cidr.address && option.prefix_len == cidr.prefix_len
}

/// Whether a prefix is tracked.
pub open spec fn is_tracked(slaac: SlaacView, cidr: Ipv6Cidr) -> bool {
    exists|k: int| 0 <= k < slaac.prefix.len() && (#[trigger] slaac.prefix[k]).0 == cidr
}

/// What one option does to the entry of a prefix, and to the others.
proof fn lemma_told_one(slaac: SlaacView, option: PrefixInformation, now: Instant)
    requires
        may_form_addresses(option),
    ensures
        ({
            let cidr = Ipv6Cidr { address: option.prefix, prefix_len: option.prefix_len };
            let after = slaac.told_prefix(option, now);
            let starts = option.valid_lifetime.micros > 0;
            &&& slaac.prefix.len() <= after.prefix.len() <= slaac.prefix.len() + 1
            &&& forall|k: int|
                0 <= k < slaac.prefix.len() ==> (#[trigger] after.prefix[k]).0 == slaac.prefix[k].0
                    && (slaac.prefix[k].0 != cidr ==> after.prefix[k] == slaac.prefix[k])
            &&& after.prefix.len() > slaac.prefix.len() ==> after.prefix.last().0 == cidr && starts
            &&& is_tracked(slaac, cidr) ==> after.prefix.len() == slaac.prefix.len()
            &&& is_tracked(slaac, cidr) || starts && slaac.prefix.len() < SLAAC_PREFIX_COUNT
                ==> after.sync_required && exists|k: int|
                0 <= k < after.prefix.len() && #[trigger] after.prefix[k] == (
                    cidr,
                    if starts {
                        PrefixInfo {
                            preferred_until: now.plus(option.preferred_lifetime),
                            valid_until: now.plus(option.valid_lifetime),
                        }
                    } else {
                        PrefixInfo {
                            preferred_until: Instant { micros: 0 },
                            valid_until: Instant { micros: 0 },
                        }
                    },
                )
        }),
{
    let cidr = Ipv6Cidr { address: option.prefix, prefix_len: option.prefix_len };
    lemma_position(slaac.prefix, of_prefix(cidr));
    let after = slaac.told_prefix(option, now);
    match prefix_position(slaac.prefix, cidr) {
        Some(k) => {
            assert(of_prefix(cidr)(slaac.prefix[k]));
            assert(after.prefix[k].0 == cidr);
        },
        None => {
            assert forall|k: int| 0 <= k < slaac.prefix.len() implies (#[trigger] slaac.prefix[k]).0
                != cidr by {
                assert(!of_prefix(cidr)(slaac.prefix[k]));
            }
            if option.valid_lifetime.micros > 0 && slaac.prefix.len() < SLAAC_PREFIX_COUNT {
                assert(after.prefix[slaac.prefix.len() as int].0 == cidr);
            }
        },
    }
}

/// Whether the option at `i` is the last usable one about a prefix.
pub open spec fn is_last_about(
    prefixes: Seq<PrefixInformation>,
    cidr: Ipv6Cidr,
    i: int,
) -> bool {
    &&& 0 <= i < prefixes.len()
    &&& is_about(prefixes[i], cidr)
    &&& may_form_addresses(prefixes[i])
    &&& forall|j: int|
        i < j < prefixes.len() && is_about(#[trigger] prefixes[j], cidr) ==> !may_form_addresses(
            prefixes[j],
        )
}

/// What options do to the table: no more entries than there were and options, each where it
/// was, with what the last option about it says, or, without one, as it was.
proof fn lemma_told(
    slaac: SlaacView,
    prefixes: Seq<PrefixInformation>,
    now: Instant,
    cidr: Ipv6Cidr,
)
    ensures
        ({
            let after = slaac.told_prefixes(prefixes, now);
            &&& slaac.prefix.len() <= after.prefix.len() <= slaac.prefix.len() + prefixes.len()
            &&& forall|k: int|
                0 <= k < slaac.prefix.len() ==> (#[trigger] after.prefix[k]).0 == slaac.prefix[k].0
            &&& is_tracked(slaac, cidr) ==> is_tracked(after, cidr)
            &&& (forall|i: int| !is_last_about(prefixes, cidr, i)) ==> (is_tracked(after, cidr)
                ==> is_tracked(slaac, cidr)) && forall|k: int|
                0 <= k < slaac.prefix.len() && (#[trigger] slaac.prefix[k]).0 == cidr
                    ==> after.prefix[k] == slaac.prefix[k]
            &&& forall|i: int|
                is_last_about(prefixes, cidr, i) && (is_tracked(slaac, cidr)
                    || prefixes[i].valid_lifetime.micros > 0 && slaac.prefix.len() + prefixes.len()
                    <= SLAAC_PREFIX_COUNT) ==> exists|k: int|
                    0 <= k < after.prefix.len() && #[trigger] after.prefix[k] == (
                        cidr,
                        if (#[trigger] prefixes[i]).valid_lifetime.micros > 0 {
                            PrefixInfo {
                                preferred_until: now.plus(prefixes[i].preferred_lifetime),
                                valid_until: now.plus(prefixes[i].valid_lifetime),
                            }
                        } else {
                            PrefixInfo {
                                preferred_until: Instant { micros: 0 },
                                valid_until: Instant { micros: 0 },
                            }
                        },
                    )
        }),
    decreases prefixes.len(),
{
    if prefixes.len() > 0 {
        let rest = prefixes.drop_last();
        let last = prefixes.last();
        let n = prefixes.len() - 1;
        lemma_told(slaac, rest, now, cidr);
        let before = slaac.told_prefixes(rest, now);
        let after = slaac.told_prefixes(prefixes, now);
        acceptable_prefixes(last);
        if may_form_addresses(last) {
            lemma_told_one(before, last, now);
        }
        let hit = is_about(last, cidr) && may_form_addresses(last);
        assert(hit ==> is_last_about(prefixes, cidr, n));
        assert forall|i: int| !hit && i < n implies #[trigger] is_last_about(rest, cidr, i)
            == is_last_about(prefixes, cidr, i) by {
            if is_last_about(rest, cidr, i) {
                assert forall|j: int|
                    i < j < prefixes.len() && is_about(#[trigger] prefixes[j], cidr) implies
                    !may_form_addresses(prefixes[j]) by {
                    if j < n {
                        assert(rest[j] == prefixes[j]);
                    }
                }
            }
            if is_last_about(prefixes, cidr, i) && i >= 0 {
                assert(rest[i] == prefixes[i]);
                assert forall|j: int|
                    i < j < rest.len() && is_about(#[trigger] rest[j], cidr) implies
                    !may_form_addresses(rest[j]) by {
                    assert(rest[j] == prefixes[j]);
                }
            }
        }
        assert forall|k: int| 0 <= k < before.prefix.len() implies (#[trigger] after.prefix[k]).0
            == before.prefix[k].0 && (!hit && before.prefix[k].0 == cidr ==> after.prefix[k]
            == before.prefix[k]) by {
            if may_form_addresses(last) {
                let told = Ipv6Cidr { address: last.prefix, prefix_len: last.prefix_len };
                assert(before.told_prefix(last, now).prefix[k].0 == before.prefix[k].0);
            }
        }
        if is_tracked(before, cidr) {
            let k = choose|k: int|
                0 <= k < before.prefix.len() && (#[trigger] before.prefix[k]).0 == cidr;
            assert(after.prefix[k].0 == cidr);
        }
        assert forall|k: int| 0 <= k < slaac.prefix.len() implies (#[trigger] after.prefix[k]).0
            == slaac.prefix[k].0 by {
            assert(before.prefix[k].0 == slaac.prefix[k].0);
        }
        if !hit {
            if is_tracked(after, cidr) && !is_tracked(before, cidr) {
                let k = choose|k: int|
                    0 <= k < after.prefix.len() && (#[trigger] after.prefix[k]).0 == cidr;
                if k < before.prefix.len() {
                    assert(before.prefix[k].0 == cidr);
                }
                assert(false);
            }
            if forall|i: int| !is_last_about(prefixes, cidr, i) {
                assert forall|i: int| !is_last_about(rest, cidr, i) by {
                    if is_last_about(rest, cidr, i) {
                        assert(is_last_about(prefixes, cidr, i));
                    }
                }
                assert forall|k: int|
                    0 <= k < slaac.prefix.len() && (#[trigger] slaac.prefix[k]).0 == cidr implies
                    after.prefix[k] == slaac.prefix[k] by {
                    assert(before.prefix[k] == slaac.prefix[k]);
                    assert(after.prefix[k].0 == before.prefix[k].0);
                }
            }
        }
        assert forall|i: int|
            is_last_about(prefixes, cidr, i) && (is_tracked(slaac, cidr)
                || prefixes[i].valid_lifetime.micros > 0 && slaac.prefix.len() + prefixes.len()
                <= SLAAC_PREFIX_COUNT) implies exists|k: int|
            0 <= k < after.prefix.len() && #[trigger] after.prefix[k] == (
                cidr,
                if (#[trigger] prefixes[i]).valid_lifetime.micros > 0 {
                    PrefixInfo {
                        preferred_until: now.plus(prefixes[i].preferred_lifetime),
                        valid_until: now.plus(prefixes[i].valid_lifetime),
                    }
                } else {
                    PrefixInfo {
                        preferred_until: Instant { micros: 0 },
                        valid_until: Instant { micros: 0 },
                    }
                },
            ) by {
            if i == n {
                assert(is_about(last, cidr));
                assert(Ipv6Cidr { address: last.prefix, prefix_len: last.prefix_len } == cidr);
            } else {
                assert(!hit) by {
                    if hit {
                        assert(is_about(prefixes[n], cidr));
                    }
                }
                assert(is_last_about(rest, cidr, i));
                assert(rest[i] == prefixes[i]);
                let entry = (
                    cidr,
                    if prefixes[i].valid_lifetime.micros > 0 {
                        PrefixInfo {
                            preferred_until: now.plus(prefixes[i].preferred_lifetime),
                            valid_until: now.plus(prefixes[i].valid_lifetime),
                        }
                    } else {
                        PrefixInfo {
                            preferred_until: Instant { micros: 0 },
                            valid_until: Instant { micros: 0 },
                        }
                    },
                );
                let k = choose|k: int|
                    0 <= k < before.prefix.len() && #[trigger] before.prefix[k] == entry;
                assert(after.prefix[k].0 == before.prefix[k].0);
                assert(after.prefix[k] == entry);
            }
        }
    }
}

/// Whether the entry of a prefix ends being preferred and being valid at these times.
pub open spec fn ends_at(
    entries: Seq<(Ipv6Cidr, PrefixInfo)>,
    cidr: Ipv6Cidr,
    preferred: int,
    valid: int,
) -> bool {
    &&& exists|k: int| 0 <= k < entries.len() && (#[trigger] entries[k]).0 == cidr
    &&& forall|k: int|
        0 <= k < entries.len() && (#[trigger] entries[k]).0 == cidr
            ==> entries[k].1.preferred_until.micros == preferred && entries[k].1.valid_until.micros
            == valid
}

/// Only one entry is of a prefix.
proof fn lemma_only_entry(slaac: SlaacView, a: int, b: int)
    requires
        tables_ok(slaac),
        0 <= a < slaac.prefix.len(),
        0 <= b < slaac.prefix.len(),
        slaac.prefix[a].0 == slaac.prefix[b].0,
    ensures
        a == b,
{
    let r = super::slaac_laws::different_prefixes();
    if a < b {
        assert(r(slaac.prefix[a], slaac.prefix[b]));
    } else if b < a {
        assert(r(slaac.prefix[b], slaac.prefix[a]));
    }
}

/// The lifetimes of a prefix are the ones advertised last, counted from when the
/// advertisement came, whatever they were before: a router can shorten them as well as
/// extend them. With no valid lifetime left, the prefix is over at once. A new prefix is
/// tracked where there is room.
pub proof fn advertised_lifetimes_replace_the_earlier(
    slaac: SlaacView,
    source: Ipv6Address,
    flags: NdiscRouterFlags,
    lifetime: Duration,
    prefixes: Seq<PrefixInformation>,
    now: Instant,
    cidr: Ipv6Cidr,
    i: int,
)
    requires
        tables_ok(slaac),
        is_last_about(prefixes, cidr, i),
        is_tracked(slaac, cidr) || prefixes[i].valid_lifetime.micros > 0 && slaac.prefix.len()
            + prefixes.len() <= SLAAC_PREFIX_COUNT,
        now.micros + prefixes[i].valid_lifetime.micros <= i64::MAX,
    ensures
        ({
            let after = slaac.advertised(source, flags, lifetime, prefixes, now);
            if prefixes[i].valid_lifetime.micros > 0 {
                ends_at(
                    after.prefix,
                    cidr,
                    now.micros + prefixes[i].preferred_lifetime.micros,
                    now.micros + prefixes[i].valid_lifetime.micros,
                )
            } else {
                ends_at(after.prefix, cidr, 0, 0)
            }
        }),
{
    lemma_told(slaac, prefixes, now, cidr);
    lemma_told_prefixes_ok(slaac, prefixes, now);
    let after = slaac.told_prefixes(prefixes, now);
    let entry = (
        cidr,
        if prefixes[i].valid_lifetime.micros > 0 {
            PrefixInfo {
                preferred_until: now.plus(prefixes[i].preferred_lifetime),
                valid_until: now.plus(prefixes[i].valid_lifetime),
            }
        } else {
            PrefixInfo {
                preferred_until: Instant { micros: 0 },
                valid_until: Instant { micros: 0 },
            }
        },
    );
    let k = choose|k: int| 0 <= k < after.prefix.len() && #[trigger] after.prefix[k] == entry;
    assert(after.prefix[k].0 == cidr);
    assert forall|j: int| 0 <= j < after.prefix.len() && (#[trigger] after.prefix[j]).0 == cidr implies
        after.prefix[j] == entry by {
        lemma_only_entry(after, j, k);
    }
}

/// A prefix that no usable option is about stays as it was: it is tracked if and only if it
/// was, for as long as it was.
pub proof fn other_prefixes_stay(
    slaac: SlaacView,
    source: Ipv6Address,
    flags: NdiscRouterFlags,
    lifetime: Duration,
    prefixes: Seq<PrefixInformation>,
    now: Instant,
    cidr: Ipv6Cidr,
)
    requires
        forall|i: int|
            0 <= i < prefixes.len() && is_about(#[trigger] prefixes[i], cidr)
                ==> !may_form_addresses(prefixes[i]),
    ensures
        ({
            let after = slaac.advertised(source, flags, lifetime, prefixes, now);
            &&& is_tracked(after, cidr) <==> is_tracked(slaac, cidr)
            &&& forall|k: int|
                0 <= k < slaac.prefix.len() && (#[trigger] slaac.prefix[k]).0 == cidr
                    ==> after.prefix[k] == slaac.prefix[k]
        }),
{
    lemma_told(slaac, prefixes, now, cidr);
    assert forall|i: int| !is_last_about(prefixes, cidr, i) by {}
    let told = slaac.told_prefixes(prefixes, now);
    let after = slaac.advertised(source, flags, lifetime, prefixes, now);
    assert(after.prefix == told.prefix);
}

/// Whether a learned route is the default route through a router.
pub open spec fn is_default_through(route: LearnedRoute, router: Ipv6Address) -> bool {
    route.cidr.address.bits == 0 && route.cidr.prefix_len == 0 && route.via_router == router
}

/// The advertising router is a default router for its lifetime, counted from when the
/// advertisement came, whatever it was before, and no longer at all if that is zero. A new
/// one is kept where there is room. Other routers stay as they were.
pub proof fn advertising_router_is_kept_for_its_lifetime(
    slaac: SlaacView,
    source: Ipv6Address,
    flags: NdiscRouterFlags,
    lifetime: Duration,
    prefixes: Seq<PrefixInformation>,
    now: Instant,
)
    requires
        tables_ok(slaac),
        now.micros + lifetime.micros <= i64::MAX,
    ensures
        ({
            let after = slaac.advertised(source, flags, lifetime, prefixes, now);
            let known = exists|k: int|
                0 <= k < slaac.routes.len() && is_default_through(#[trigger] slaac.routes[k], source);
            &&& forall|k: int|
                0 <= k < slaac.routes.len() ==> if is_default_through(
                    #[trigger] slaac.routes[k],
                    source,
                ) {
                    is_default_through(after.routes[k], source)
                        && after.routes[k].valid_until.micros == if lifetime.micros > 0 {
                        now.micros + lifetime.micros
                    } else {
                        0
                    }
                } else {
                    after.routes[k] == slaac.routes[k]
                }
            &&& after.routes.len() == if !known && lifetime.micros > 0 && slaac.routes.len()
                < SLAAC_ROUTER_COUNT {
                slaac.routes.len() + 1
            } else {
                slaac.routes.len()
            }
            &&& after.routes.len() > slaac.routes.len() ==> is_default_through(
                after.routes.last(),
                source,
            ) && after.routes.last().valid_until.micros == now.micros + lifetime.micros
        }),
{
    lemma_told_keeps(slaac, prefixes, now);
    let told = slaac.told_prefixes(prefixes, now);
    let default = ipv6_default();
    let p = |route: LearnedRoute| route.is_route(default, source);
    lemma_position(told.routes, p);
    assert(route_position(told.routes, default, source) == position(told.routes, p));
    assert forall|k: int| 0 <= k < told.routes.len() implies p(#[trigger] told.routes[k])
        == is_default_through(told.routes[k], source) by {
        let cidr = told.routes[k].cidr;
        assert(cidr == default <==> cidr.address == default.address && cidr.prefix_len
            == default.prefix_len);
    }
    let after = slaac.advertised(source, flags, lifetime, prefixes, now);
    let r = super::slaac_laws::different_routes();
    match position(told.routes, p) {
        Some(i) => {
            assert(p(told.routes[i]));
            assert forall|k: int| 0 <= k < told.routes.len() && k != i implies !p(
                #[trigger] told.routes[k],
            ) by {
                if k < i {
                    assert(r(slaac.routes[k], slaac.routes[i]));
                } else {
                    assert(r(slaac.routes[i], slaac.routes[k]));
                }
            }
        },
        None => {
            assert forall|k: int| 0 <= k < told.routes.len() implies !is_default_through(
                #[trigger] told.routes[k],
                source,
            ) by {
                assert(!p(told.routes[k]));
            }
        },
    }
}

/// Options about prefixes change nothing but the prefixes, and whether to synchronize.
proof fn lemma_told_keeps(slaac: SlaacView, prefixes: Seq<PrefixInformation>, now: Instant)
    ensures
        ({
            let after = slaac.told_prefixes(prefixes, now);
            &&& after.routes == slaac.routes
            &&& after.phase == slaac.phase
            &&& after.retry_rs_at == slaac.retry_rs_at
            &&& after.num_solicitations == slaac.num_solicitations
            &&& after.state == slaac.state
            &&& after.config == slaac.config
            &&& slaac.sync_required ==> after.sync_required
            &&& after.prefix != slaac.prefix ==> after.sync_required
        }),
    decreases prefixes.len(),
{
    if prefixes.len() > 0 {
        lemma_told_keeps(slaac, prefixes.drop_last(), now);
    }
}

/// An advertisement says whether addresses and other configuration are to be had through
/// DHCPv6, in its two highest flags. It ends a search for routers. It changes nothing else of
/// the search, and what it changed of prefixes and routers is to be synchronized.
pub proof fn advertisement_ends_the_search(
    slaac: SlaacView,
    source: Ipv6Address,
    flags: NdiscRouterFlags,
    lifetime: Duration,
    prefixes: Seq<PrefixInformation>,
    now: Instant,
)
    ensures
        ({
            let after = slaac.advertised(source, flags, lifetime, prefixes, now);
            &&& after.state.routers_seen
            &&& after.state.managed == (flags.bits >= 0x80)
            &&& after.state.other_config == ((flags.bits % 0x80) >= 0x40)
            &&& slaac.phase is Discovering ==> after.phase is Maintaining
            &&& !(slaac.phase is Discovering) ==> after.phase == slaac.phase
            &&& after.num_solicitations == slaac.num_solicitations
            &&& after.retry_rs_at == slaac.retry_rs_at
            &&& after.config == slaac.config
            &&& slaac.sync_required ==> after.sync_required
            &&& after.prefix != slaac.prefix || after.routes != slaac.routes
                ==> after.sync_required
        }),
{
    lemma_told_keeps(slaac, prefixes, now);
    let told = slaac.told_prefixes(prefixes, now);
    let after = slaac.advertised(source, flags, lifetime, prefixes, now);
    if lifetime.micros == 0 && !(exists|i: int|
        0 <= i < told.routes.len() && (#[trigger] told.routes[i]).is_route(
            ipv6_default(),
            source,
        )) {
        assert(after.routes =~= slaac.routes);
    }
}

/// A prefix and a learned route are valid until their time comes. What is over is dropped by
/// an update, and what is not stays.
pub proof fn update_drops_what_is_over(slaac: SlaacView, now: Instant)
    ensures
        forall|k: int|
            0 <= k < slaac.updated(now).prefix.len() ==> (#[trigger] slaac.updated(
                now,
            ).prefix[k]).1.valid_until.micros > now.micros,
        forall|k: int|
            0 <= k < slaac.updated(now).routes.len() ==> (#[trigger] slaac.updated(
                now,
            ).routes[k]).valid_until.micros > now.micros,
        forall|i: int|
            0 <= i < slaac.prefix.len() && (#[trigger] slaac.prefix[i]).1.valid_until.micros
                > now.micros ==> slaac.updated(now).prefix.contains(slaac.prefix[i]),
        forall|i: int|
            0 <= i < slaac.routes.len() && (#[trigger] slaac.routes[i]).valid_until.micros
                > now.micros ==> slaac.updated(now).routes.contains(slaac.routes[i]),
        !slaac.updated(now).sync_required,
        slaac.updated(now).phase == slaac.phase,
        slaac.updated(now).num_solicitations == slaac.num_solicitations,
        slaac.updated(now).retry_rs_at == slaac.retry_rs_at,
        slaac.updated(now).state == slaac.state,
        slaac.updated(now).config == slaac.config,
{
    let p = |entry: (Ipv6Cidr, PrefixInfo)| entry.1.valid(now);
    let q = |route: LearnedRoute| route.valid(now);
    let after = slaac.updated(now);
    assert forall|k: int| 0 <= k < after.prefix.len() implies (
    #[trigger] after.prefix[k]).1.valid_until.micros > now.micros by {
        lemma_filter_from(slaac.prefix, p, k);
    }
    assert forall|k: int| 0 <= k < after.routes.len() implies (
    #[trigger] after.routes[k]).valid_until.micros > now.micros by {
        lemma_filter_from(slaac.routes, q, k);
    }
    assert forall|i: int|
        0 <= i < slaac.prefix.len() && (#[trigger] slaac.prefix[i]).1.valid_until.micros
            > now.micros implies after.prefix.contains(slaac.prefix[i]) by {
        lemma_filter_keeps(slaac.prefix, p, i);
    }
    assert forall|i: int|
        0 <= i < slaac.routes.len() && (#[trigger] slaac.routes[i]).valid_until.micros
            > now.micros implies after.routes.contains(slaac.routes[i]) by {
        lemma_filter_keeps(slaac.routes, q, i);
    }
}

/// The interface has to be synchronized if and only if something was learned, or a prefix or
/// a router is over by now. The next poll is no later than the next of them is.
pub proof fn sync_is_due_when_something_ends(slaac: SlaacView, clock: Clock)
    ensures
        slaac.needs_sync(clock) <==> slaac.sync_required || (exists|i: int|
            0 <= i < slaac.prefix.len() && (#[trigger] slaac.prefix[i]).1.valid_until.micros
                <= clock.now.micros) || (exists|i: int|
            0 <= i < slaac.routes.len() && (#[trigger] slaac.routes[i]).valid_until.micros
                <= clock.now.micros),
        forall|i: int|
            0 <= i < slaac.prefix.len() && (#[trigger] slaac.prefix[i]).1.valid_until.micros
                > clock.now.micros ==> slaac.sync_clock(clock).next.micros
                <= slaac.prefix[i].1.valid_until.micros,
        forall|i: int|
            0 <= i < slaac.routes.len() && (#[trigger] slaac.routes[i]).valid_until.micros
                > clock.now.micros ==> slaac.sync_clock(clock).next.micros
                <= slaac.routes[i].valid_until.micros,
        slaac.sync_clock(clock).next.micros <= clock.next.micros,
        slaac.sync_clock(clock).now == clock.now,
{
    let ends = prefix_ends(slaac.prefix);
    let other = route_ends(slaac.routes);
    assert forall|i: int| 0 <= i < slaac.prefix.len() implies ends[i] == (
    #[trigger] slaac.prefix[i]).1.valid_until by {}
    assert forall|i: int| 0 <= i < slaac.routes.len() implies other[i] == (
    #[trigger] slaac.routes[i]).valid_until by {}
    if exists|i: int|
        0 <= i < slaac.prefix.len() && (#[trigger] slaac.prefix[i]).1.valid_until.micros
            <= clock.now.micros {
        let i = choose|i: int|
            0 <= i < slaac.prefix.len() && (#[trigger] slaac.prefix[i]).1.valid_until.micros
                <= clock.now.micros;
        assert(clock.has_passed(ends[i]));
    }
    if exists|i: int|
        0 <= i < slaac.routes.len() && (#[trigger] slaac.routes[i]).valid_until.micros
            <= clock.now.micros {
        let i = choose|i: int|
            0 <= i < slaac.routes.len() && (#[trigger] slaac.routes[i]).valid_until.micros
                <= clock.now.micros;
        assert(clock.has_passed(other[i]));
    }
    if some_passed(clock, ends) {
        let i = choose|i: int| 0 <= i < ends.len() && clock.has_passed(#[trigger] ends[i]);
        assert(slaac.prefix[i].1.valid_until.micros <= clock.now.micros);
    }
    if some_passed(clock, other) {
        let i = choose|i: int| 0 <= i < other.len() && clock.has_passed(#[trigger] other[i]);
        assert(slaac.routes[i].valid_until.micros <= clock.now.micros);
    }
    lemma_asked_all(clock, ends);
    lemma_asked_all(asked_all(clock, ends), other);
    assert forall|i: int|
        0 <= i < slaac.prefix.len() && (#[trigger] slaac.prefix[i]).1.valid_until.micros
            > clock.now.micros implies slaac.sync_clock(clock).next.micros
        <= slaac.prefix[i].1.valid_until.micros by {
        assert(ends[i].micros > clock.now.micros);
    }
    assert forall|i: int|
        0 <= i < slaac.routes.len() && (#[trigger] slaac.routes[i]).valid_until.micros
            > clock.now.micros implies slaac.sync_clock(clock).next.micros
        <= slaac.routes[i].valid_until.micros by {
        assert(other[i].micros > clock.now.micros);
    }
}

/// A clock that was asked about deadlines waits for none of them for too long.
proof fn lemma_asked_all(clock: Clock, deadlines: Seq<Instant>)
    ensures
        asked_all(clock, deadlines).now == clock.now,
        asked_all(clock, deadlines).next.micros <= clock.next.micros,
        forall|i: int|
            0 <= i < deadlines.len() && (#[trigger] deadlines[i]).micros > clock.now.micros
                ==> asked_all(clock, deadlines).next.micros <= deadlines[i].micros,
    decreases deadlines.len(),
{
    if deadlines.len() > 0 {
        let rest = deadlines.drop_last();
        lemma_asked_all(clock, rest);
        assert forall|i: int|
            0 <= i < deadlines.len() && (#[trigger] deadlines[i]).micros > clock.now.micros implies
            asked_all(clock, deadlines).next.micros <= deadlines[i].micros by {
            if i < rest.len() {
                assert(rest[i] == deadlines[i]);
            }
        }
    }
}

/// Three solicitations are sent at most, the first at once and each of the others four
/// seconds after the one before, as long as no router answers. None is due once one did, and
/// starting again starts from the beginning.
pub proof fn solicitations_are_three_and_four_seconds_apart(
    slaac: SlaacView,
    config: SlaacConfig,
    now: Instant,
)
    requires
        now.micros + 4_000_000 <= i64::MAX,
    ensures
        SlaacView::started(config).num_solicitations == 3,
        SlaacView::started(config).solicit_at().micros == 0,
        SlaacView::started(config).prefix.len() == 0,
        SlaacView::started(config).routes.len() == 0,
        SlaacView::started(config).config == config,
        !SlaacView::started(config).state.routers_seen,
        !SlaacView::started(config).sync_required,
        slaac.restarted().num_solicitations == 3,
        slaac.restarted().solicit_at().micros == 0,
        slaac.restarted().prefix == slaac.prefix,
        slaac.restarted().routes == slaac.routes,
        slaac.restarted().state == slaac.state,
        slaac.phase is Maintaining || slaac.phase is GaveUp || slaac.num_solicitations == 0
            ==> slaac.solicit_at().micros == i64::MAX,
        (slaac.phase is Start || slaac.phase is Discovering) && slaac.num_solicitations > 0
            ==> slaac.solicit_at() == slaac.retry_rs_at,
        (slaac.phase is Start || slaac.phase is Discovering) && slaac.num_solicitations > 0
            && slaac.retry_rs_at.micros <= now.micros ==> {
            let after = slaac.solicited(now);
            &&& after.num_solicitations == slaac.num_solicitations - 1
            &&& after.phase is Discovering
            &&& after.retry_rs_at.micros == now.micros + 4_000_000
            &&& after.prefix == slaac.prefix
            &&& after.routes == slaac.routes
            &&& after.state == slaac.state
            &&& after.sync_required == slaac.sync_required
        },
        slaac.phase is Maintaining || slaac.phase is GaveUp || slaac.retry_rs_at.micros
            > now.micros ==> slaac.solicited(now) == slaac,
        (slaac.phase is Start || slaac.phase is Discovering) && slaac.num_solicitations == 0
            && slaac.retry_rs_at.micros <= now.micros ==> slaac.solicited(now).phase is GaveUp,
{
}

} // verus!

//! What holds of the source addresses an interface chooses.

use super::state::{
    addr_assigned, addr_on_link, best_source, broadcast_ipv4, first_ipv4_cidr,
    is_better_source, is_candidate_source, is_ipv4, is_ipv4_near, is_ipv6, is_link_local_ipv6,
    link_local_ipv6, listens_to, source_ipv4, source_ipv6,
};
use super::IfaceAddr;
use crate::lists::{lemma_position, position};
use crate::time::Instant;
use crate::wire::subnet_laws::{
    common_bits_are_leading_bits, first_bits_agree, shares_prefix, subnet_is_its_prefix,
};
use crate::wire::{IpAddress, IpCidr, Ipv4Address, Ipv6Address};
use vstd::arithmetic::power2::pow2;
use vstd::prelude::*;

verus! {

/// How wide the scope of an IPv6 address is: that of a multicast address is its
/// fourth hexadecimal digit, if it is an assigned one, `fe80::/10` is of the link,
/// `2000::/3` and `fc00::/7` are global, and of others nothing is known.
pub open spec fn scope_width(bits: int) -> int {
    let top = bits / 0x1_0000_0000_0000_0000_0000_0000_0000;
    if 0xff00 <= top {
        let digit = top % 0x10;
        if digit == 1 || digit == 2 || digit == 4 || digit == 5 || digit == 8 || digit == 14 {
            digit
        } else {
            255
        }
    } else if 0xfe80 <= top < 0xfec0 {
        2
    } else if 0x2000 <= top < 0x4000 || 0xfc00 <= top < 0xfe00 {
        14
    } else {
        255
    }
}

/// The scope of an address is told by its first 16 bits.
pub proof fn scope_is_told_by_the_first_bits(addr: Ipv6Address)
    ensures
        addr.scope().number() == scope_width(addr.bits as int),
        addr.in_multicast() <==> addr.bits >= 0xff00_0000_0000_0000_0000_0000_0000_0000,
        addr.link_local() <==> 0xfe80_0000_0000_0000_0000_0000_0000_0000 <= addr.bits
            < 0xfec0_0000_0000_0000_0000_0000_0000_0000,
        addr.unicast() <==> 0 < addr.bits < 0xff00_0000_0000_0000_0000_0000_0000_0000,
{
}

/// Whether an address is preferred: it has no preferred lifetime, or that still runs.
pub open spec fn is_still_preferred(addr: IfaceAddr, now: Instant) -> bool {
    match addr.preferred_until {
        Some(until) => now.micros < until.micros,
        None => true,
    }
}

/// Whether `own` is no worse a source address for `dst` than `other`. The destination
/// itself is best. Then the narrower scope is better as long as it is wide enough for
/// the destination, and the wider one if it is not. Of the same scope, a preferred one
/// is better, and last the one whose prefix has more bits in common with the
/// destination.
pub open spec fn is_no_worse_source(
    own: IfaceAddr,
    other: IfaceAddr,
    dst: Ipv6Address,
    now: Instant,
) -> bool {
    let a = own.cidr->Ipv6_0;
    let b = other.cidr->Ipv6_0;
    let needed = scope_width(dst.bits as int);
    let width = scope_width(a.address.bits as int);
    let other_width = scope_width(b.address.bits as int);
    ||| a.address == dst
    ||| b.address != dst && needed <= width < other_width
    ||| b.address != dst && other_width < width && other_width < needed
    ||| b.address != dst && width == other_width && is_still_preferred(own, now)
        && !is_still_preferred(other, now)
    ||| b.address != dst && width == other_width && is_still_preferred(own, now)
        == is_still_preferred(other, now) && forall|n: int|
        0 <= n <= b.prefix_len && #[trigger] first_bits_agree(b.address, dst, n) ==> n
            <= a.prefix_len && first_bits_agree(a.address, dst, n)
}

/// Whether an assigned address may be the source of a packet to `dst`: an IPv6 unicast
/// address, and a link-local one if the destination is.
pub open spec fn is_usable_source(addr: IfaceAddr, dst: Ipv6Address) -> bool {
    &&& addr.cidr is Ipv6
    &&& 0 < addr.cidr->Ipv6_0.address.bits < 0xff00_0000_0000_0000_0000_0000_0000_0000
    &&& 0xfe80_0000_0000_0000_0000_0000_0000_0000 <= dst.bits
        < 0xfec0_0000_0000_0000_0000_0000_0000_0000
        ==> 0xfe80_0000_0000_0000_0000_0000_0000_0000 <= addr.cidr->Ipv6_0.address.bits
        < 0xfec0_0000_0000_0000_0000_0000_0000_0000
}

/// The comparison of two source addresses is the one of the rules.
proof fn lemma_no_worse(own: IfaceAddr, other: IfaceAddr, dst: Ipv6Address, now: Instant)
    requires
        own.cidr is Ipv6,
        other.cidr is Ipv6,
        own.cidr.wf(),
        other.cidr.wf(),
    ensures
        own.cidr->Ipv6_0.address == dst || !is_better_source(own, other, dst, now)
            <==> is_no_worse_source(own, other, dst, now),
{
    let a = own.cidr->Ipv6_0;
    let b = other.cidr->Ipv6_0;
    scope_is_told_by_the_first_bits(a.address);
    scope_is_told_by_the_first_bits(b.address);
    scope_is_told_by_the_first_bits(dst);
    let shared = super::state::common_prefix_length(a, dst);
    let other_shared = super::state::common_prefix_length(b, dst);
    lemma_common_bits_bounded(a.address, dst);
    lemma_common_bits_bounded(b.address, dst);
    if other_shared <= shared {
        assert forall|n: int|
            0 <= n <= b.prefix_len && #[trigger] first_bits_agree(b.address, dst, n) implies n
            <= a.prefix_len && first_bits_agree(a.address, dst, n) by {
            common_bits_are_leading_bits(a.address, dst, n);
            common_bits_are_leading_bits(b.address, dst, n);
        }
    } else {
        common_bits_are_leading_bits(b.address, dst, other_shared);
        common_bits_are_leading_bits(a.address, dst, other_shared);
        assert(first_bits_agree(b.address, dst, other_shared));
        assert(0 <= other_shared <= b.prefix_len);
        assert(!(other_shared <= a.prefix_len && first_bits_agree(a.address, dst, other_shared)));
    }
}

/// Addresses share between no and all of their bits.
proof fn lemma_common_bits_bounded(a: Ipv6Address, b: Ipv6Address)
    ensures
        0 <= a.common_bits(b) <= 128,
{
    common_bits_are_leading_bits(a, b, 0);
    vstd::arithmetic::power2::lemma2_to64();
    vstd::arithmetic::power2::lemma2_to64_rest();
    vstd::arithmetic::power2::lemma_pow2_adds(64, 64);
    assert(0x1_0000_0000_0000_0000 * 0x1_0000_0000_0000_0000
        == 0x1_0000_0000_0000_0000_0000_0000_0000_0000int);
    assert(a.bits as nat / pow2(128) == 0 && b.bits as nat / pow2(128) == 0) by (nonlinear_arith)
        requires
            pow2(128) == 0x1_0000_0000_0000_0000_0000_0000_0000_0000,
            a.bits < 0x1_0000_0000_0000_0000_0000_0000_0000_0000,
            b.bits < 0x1_0000_0000_0000_0000_0000_0000_0000_0000,
    ;
}

/// What beats an address that another one does not beat, beats that one.
proof fn lemma_beats(
    worse: IfaceAddr,
    better: IfaceAddr,
    other: IfaceAddr,
    dst: Ipv6Address,
    now: Instant,
)
    requires
        is_better_source(worse, better, dst, now),
        !is_better_source(worse, other, dst, now),
    ensures
        is_better_source(other, better, dst, now),
        better.cidr->Ipv6_0.address != dst ==> !is_better_source(better, other, dst, now),
{
}

/// Whether the address at `k` is the one left of the first `n` addresses and the one at
/// `first`: no usable one beats it, and it beats those before it.
spec fn is_left(
    addrs: Seq<IfaceAddr>,
    n: int,
    first: int,
    dst: Ipv6Address,
    now: Instant,
    k: int,
) -> bool {
    &&& 0 <= k < addrs.len()
    &&& k == first || k < n && is_candidate_source(dst, addrs[k].cidr->Ipv6_0.address)
    &&& addrs[k].cidr is Ipv6
    &&& best_source(addrs[first], addrs.take(n), dst, now) == addrs[k]
    &&& addrs[k].cidr->Ipv6_0.address == dst || forall|j: int|
        0 <= j < n && (#[trigger] addrs[j]).cidr is Ipv6 && is_candidate_source(
            dst,
            addrs[j].cidr->Ipv6_0.address,
        ) ==> !is_better_source(addrs[k], addrs[j], dst, now) && (j < k ==> is_better_source(
            addrs[j],
            addrs[k],
            dst,
            now,
        ))
}

/// One address is left.
proof fn lemma_left(
    addrs: Seq<IfaceAddr>,
    n: int,
    first: int,
    dst: Ipv6Address,
    now: Instant,
) -> (k: int)
    requires
        0 <= n <= addrs.len(),
        0 <= first < addrs.len(),
        addrs[first].cidr is Ipv6,
        forall|i: int| 0 <= i < first ==> !((#[trigger] addrs[i]).cidr is Ipv6),
    ensures
        is_left(addrs, n, first, dst, now, k),
    decreases n,
{
    if n == 0 {
        assert(addrs.take(0) =~= Seq::empty());
        first
    } else {
        let before = lemma_left(addrs, n - 1, first, dst, now);
        let addr = addrs[n - 1];
        assert(addrs.take(n).drop_last() =~= addrs.take(n - 1));
        assert(addrs.take(n).last() == addr);
        let taken = addr.cidr is Ipv6 && is_candidate_source(dst, addr.cidr->Ipv6_0.address)
            && is_better_source(addrs[before], addr, dst, now);
        let k = if taken {
            n - 1
        } else {
            before
        };
        if addrs[k].cidr->Ipv6_0.address != dst {
            assert forall|j: int|
                0 <= j < n && (#[trigger] addrs[j]).cidr is Ipv6 && is_candidate_source(
                    dst,
                    addrs[j].cidr->Ipv6_0.address,
                ) implies !is_better_source(addrs[k], addrs[j], dst, now) && (j < k
                ==> is_better_source(addrs[j], addrs[k], dst, now)) by {
                if taken && j < n - 1 {
                    assert(addrs[before].cidr->Ipv6_0.address != dst);
                    assert(!is_better_source(addrs[before], addrs[j], dst, now));
                    lemma_beats(addrs[before], addr, addrs[j], dst, now);
                }
            }
        }
        k
    }
}

/// Whether the address at `k` is the source chosen for `dst`: no usable address is
/// better, those before it are worse, and unless it is the first IPv6 address, it is
/// usable.
pub open spec fn is_chosen_source(
    addrs: Seq<IfaceAddr>,
    dst: Ipv6Address,
    now: Instant,
    k: int,
) -> bool {
    &&& 0 <= k < addrs.len()
    &&& addrs[k].cidr is Ipv6
    &&& forall|j: int|
        0 <= j < addrs.len() && is_usable_source(#[trigger] addrs[j], dst) ==> is_no_worse_source(
            addrs[k],
            addrs[j],
            dst,
            now,
        )
    &&& addrs[k].cidr->Ipv6_0.address != dst ==> forall|j: int|
        0 <= j < k && is_usable_source(#[trigger] addrs[j], dst) ==> !is_no_worse_source(
            addrs[j],
            addrs[k],
            dst,
            now,
        )
    &&& is_usable_source(addrs[k], dst) || forall|j: int|
        0 <= j < k ==> !((#[trigger] addrs[j]).cidr is Ipv6)
}

/// The source address of a packet is chosen by the rules: of the addresses that may be
/// used, the first of the best.
pub proof fn source_follows_the_rules(addrs: Seq<IfaceAddr>, dst: Ipv6Address, now: Instant) -> (k:
    int)
    requires
        forall|i: int| 0 <= i < addrs.len() ==> (#[trigger] addrs[i]).cidr.wf(),
        dst.bits != 1,
        exists|i: int| 0 <= i < addrs.len() && (#[trigger] addrs[i]).cidr is Ipv6,
    ensures
        is_chosen_source(addrs, dst, now, k),
        source_ipv6(addrs, dst, now) == addrs[k].cidr->Ipv6_0.address,
{
    lemma_position(addrs, is_ipv6());
    let some = choose|i: int| 0 <= i < addrs.len() && (#[trigger] addrs[i]).cidr is Ipv6;
    assert(is_ipv6()(addrs[some]));
    let first = position(addrs, is_ipv6())->0;
    assert forall|i: int| 0 <= i < first implies !((#[trigger] addrs[i]).cidr is Ipv6) by {
        assert(!is_ipv6()(addrs[i]));
    }
    let k = lemma_left(addrs, addrs.len() as int, first, dst, now);
    assert(addrs.take(addrs.len() as int) =~= addrs);
    scope_is_told_by_the_first_bits(dst);
    scope_is_told_by_the_first_bits(addrs[k].cidr->Ipv6_0.address);
    assert forall|j: int|
        0 <= j < addrs.len() && is_usable_source(#[trigger] addrs[j], dst) implies
        is_no_worse_source(addrs[k], addrs[j], dst, now) && (addrs[k].cidr->Ipv6_0.address != dst
        && j < k ==> !is_no_worse_source(addrs[j], addrs[k], dst, now)) by {
        scope_is_told_by_the_first_bits(addrs[j].cidr->Ipv6_0.address);
        assert(is_candidate_source(dst, addrs[j].cidr->Ipv6_0.address));
        lemma_no_worse(addrs[k], addrs[j], dst, now);
        lemma_no_worse(addrs[j], addrs[k], dst, now);
    }
    k
}

/// Without an IPv6 address, and to the loopback address itself, packets are sent from
/// the loopback address.
pub proof fn loopback_is_the_last_resort(addrs: Seq<IfaceAddr>, dst: Ipv6Address, now: Instant)
    ensures
        dst.bits == 1 || (forall|i: int| 0 <= i < addrs.len() ==> (#[trigger] addrs[i]).cidr is Ipv4)
            ==> source_ipv6(addrs, dst, now).bits == 1,
{
    lemma_position(addrs, is_ipv6());
}

/// A packet to a global address is not sent from a link-local one as long as a global
/// one is assigned.
pub proof fn global_destination_gets_a_global_source(
    addrs: Seq<IfaceAddr>,
    dst: Ipv6Address,
    now: Instant,
    global: int,
)
    requires
        forall|i: int| 0 <= i < addrs.len() ==> (#[trigger] addrs[i]).cidr.wf(),
        0x2000_0000_0000_0000_0000_0000_0000_0000 <= dst.bits
            < 0x4000_0000_0000_0000_0000_0000_0000_0000,
        0 <= global < addrs.len(),
        addrs[global].cidr is Ipv6,
        0x2000_0000_0000_0000_0000_0000_0000_0000 <= addrs[global].cidr->Ipv6_0.address.bits
            < 0x4000_0000_0000_0000_0000_0000_0000_0000,
    ensures
        !(0xfe80_0000_0000_0000_0000_0000_0000_0000 <= source_ipv6(addrs, dst, now).bits
            < 0xfec0_0000_0000_0000_0000_0000_0000_0000),
        scope_width(source_ipv6(addrs, dst, now).bits as int) == 14,
{
    let k = source_follows_the_rules(addrs, dst, now);
    assert(is_usable_source(addrs[global], dst));
}

/// A packet to a link-local address is sent from a link-local one, if one is assigned
/// and every assigned IPv6 address is a unicast one.
pub proof fn link_local_destination_gets_a_link_local_source(
    addrs: Seq<IfaceAddr>,
    dst: Ipv6Address,
    now: Instant,
    own: int,
)
    requires
        forall|i: int| 0 <= i < addrs.len() ==> (#[trigger] addrs[i]).cidr.wf(),
        forall|i: int|
            0 <= i < addrs.len() && (#[trigger] addrs[i]).cidr is Ipv6 ==> 0
                < addrs[i].cidr->Ipv6_0.address.bits < 0xff00_0000_0000_0000_0000_0000_0000_0000,
        0xfe80_0000_0000_0000_0000_0000_0000_0000 <= dst.bits
            < 0xfec0_0000_0000_0000_0000_0000_0000_0000,
        0 <= own < addrs.len(),
        addrs[own].cidr is Ipv6,
        0xfe80_0000_0000_0000_0000_0000_0000_0000 <= addrs[own].cidr->Ipv6_0.address.bits
            < 0xfec0_0000_0000_0000_0000_0000_0000_0000,
    ensures
        0xfe80_0000_0000_0000_0000_0000_0000_0000 <= source_ipv6(addrs, dst, now).bits
            < 0xfec0_0000_0000_0000_0000_0000_0000_0000,
{
    let k = source_follows_the_rules(addrs, dst, now);
    assert(is_usable_source(addrs[own], dst));
    assert(addrs[k].cidr is Ipv6);
}

/// Of two source addresses of different scope, neither of them the destination, exactly
/// one is better than the other: the one whose scope is wide enough for the destination
/// if only one is, the narrower one if both are, and the wider one if neither is.
pub proof fn scope_decides_between_sources(
    a: IfaceAddr,
    b: IfaceAddr,
    dst: Ipv6Address,
    now: Instant,
)
    requires
        a.cidr is Ipv6,
        b.cidr is Ipv6,
        a.cidr->Ipv6_0.address != dst,
        b.cidr->Ipv6_0.address != dst,
        scope_width(a.cidr->Ipv6_0.address.bits as int) < scope_width(
            b.cidr->Ipv6_0.address.bits as int,
        ),
    ensures
        is_better_source(b, a, dst, now) <==> !is_better_source(a, b, dst, now),
        is_better_source(b, a, dst, now) <==> scope_width(a.cidr->Ipv6_0.address.bits as int)
            >= scope_width(dst.bits as int),
{
    scope_is_told_by_the_first_bits(a.cidr->Ipv6_0.address);
    scope_is_told_by_the_first_bits(b.cidr->Ipv6_0.address);
    scope_is_told_by_the_first_bits(dst);
}

/// Whether the address at `k` is the IPv4 source for `dst`: the first one of a subnet that
/// `dst` is in, else the first IPv4 one.
pub open spec fn is_source_v4(addrs: Seq<IfaceAddr>, dst: IpAddress, k: int) -> bool {
    &&& 0 <= k < addrs.len()
    &&& addrs[k].cidr is Ipv4
    &&& shares_prefix(addrs[k].cidr, dst) || forall|j: int|
        0 <= j < addrs.len() ==> !shares_prefix((#[trigger] addrs[j]).cidr, dst)
    &&& forall|j: int|
        0 <= j < k && shares_prefix((#[trigger] addrs[j]).cidr, dst) == shares_prefix(
            addrs[k].cidr,
            dst,
        ) ==> addrs[j].cidr is Ipv6
}

/// An interface without an IPv4 address has no IPv4 source. Else packets to a subnet of the
/// interface are sent from the first address of such a subnet, and others from the first
/// IPv4 address.
pub proof fn ipv4_source_is_of_the_destination_subnet(addrs: Seq<IfaceAddr>, dst: Ipv4Address)
    requires
        forall|i: int| 0 <= i < addrs.len() ==> (#[trigger] addrs[i]).cidr.wf(),
    ensures
        source_ipv4(addrs, dst) is None <==> forall|i: int|
            0 <= i < addrs.len() ==> (#[trigger] addrs[i]).cidr is Ipv6,
        source_ipv4(addrs, dst) matches Some(source) ==> exists|k: int|
            #[trigger] is_source_v4(addrs, IpAddress::Ipv4(dst), k)
                && addrs[k].cidr->Ipv4_0.address == source,
{
    let to = IpAddress::Ipv4(dst);
    lemma_position(addrs, is_ipv4());
    lemma_position(addrs, is_ipv4_near(dst));
    assert forall|i: int| 0 <= i < addrs.len() implies is_ipv4_near(dst)(#[trigger] addrs[i])
        == shares_prefix(addrs[i].cidr, to) by {
        subnet_is_its_prefix(addrs[i].cidr, to);
    }
    let near = position(addrs, is_ipv4_near(dst));
    let first = position(addrs, is_ipv4());
    if let Some(k) = near {
        assert(is_ipv4_near(dst)(addrs[k]));
        assert(is_ipv4()(addrs[k]));
        assert forall|j: int| 0 <= j < k && shares_prefix((#[trigger] addrs[j]).cidr, to) implies
            addrs[j].cidr is Ipv6 by {
            assert(!is_ipv4_near(dst)(addrs[j]));
        }
        assert(is_source_v4(addrs, to, k));
    } else if let Some(k) = first {
        assert(is_ipv4()(addrs[k]));
        assert forall|j: int| 0 <= j < k implies (#[trigger] addrs[j]).cidr is Ipv6 by {
            assert(!is_ipv4()(addrs[j]));
        }
        assert forall|j: int| 0 <= j < addrs.len() implies !shares_prefix(
            (#[trigger] addrs[j]).cidr,
            to,
        ) by {
            assert(!is_ipv4_near(dst)(addrs[j]));
        }
        assert(is_source_v4(addrs, to, k));
    } else {
        assert forall|j: int| 0 <= j < addrs.len() implies (#[trigger] addrs[j]).cidr is Ipv6 by {
            assert(!is_ipv4()(addrs[j]));
        }
    }
}

/// The first IPv4 subnet and the first link-local address are the first of their kind, and
/// there are some unless no address is of the kind.
pub proof fn first_addresses_are_first(addrs: Seq<IfaceAddr>)
    ensures
        first_ipv4_cidr(addrs) is None <==> forall|i: int|
            0 <= i < addrs.len() ==> (#[trigger] addrs[i]).cidr is Ipv6,
        first_ipv4_cidr(addrs) matches Some(cidr) ==> exists|k: int|
            0 <= k < addrs.len() && (#[trigger] addrs[k]).cidr == IpCidr::Ipv4(cidr) && forall|j: int|
                0 <= j < k ==> (#[trigger] addrs[j]).cidr is Ipv6,
        link_local_ipv6(addrs) is None <==> forall|i: int|
            0 <= i < addrs.len() ==> !is_of_the_link(#[trigger] addrs[i]),
        link_local_ipv6(addrs) matches Some(addr) ==> exists|k: int|
            0 <= k < addrs.len() && is_of_the_link(#[trigger] addrs[k])
                && addrs[k].cidr->Ipv6_0.address == addr && forall|j: int|
                0 <= j < k ==> !is_of_the_link(#[trigger] addrs[j]),
{
    lemma_position(addrs, is_ipv4());
    lemma_position(addrs, is_link_local_ipv6());
    assert forall|i: int| 0 <= i < addrs.len() implies is_ipv4()(#[trigger] addrs[i]) == (
    addrs[i].cidr is Ipv4) && is_link_local_ipv6()(addrs[i]) == is_of_the_link(addrs[i]) by {}
    if let Some(k) = position(addrs, is_ipv4()) {
        assert(is_ipv4()(addrs[k]));
    }
    if let Some(k) = position(addrs, is_link_local_ipv6()) {
        assert(is_link_local_ipv6()(addrs[k]));
    }
}

/// Whether an address is an IPv6 one of `fe80::/10`.
pub open spec fn is_of_the_link(addr: IfaceAddr) -> bool {
    addr.cidr is Ipv6 && 0xfe80_0000_0000_0000_0000_0000_0000_0000
        <= addr.cidr->Ipv6_0.address.bits < 0xfec0_0000_0000_0000_0000_0000_0000_0000
}

/// An interface listens to the all-systems group of IPv4, to the all-nodes group of IPv6,
/// and to the solicited-node group of each of its IPv6 addresses other than the loopback
/// address, and to no other group.
pub proof fn groups_of_an_iface(addrs: Seq<IfaceAddr>, group: IpAddress)
    ensures
        listens_to(addrs, group) <==> match group {
            IpAddress::Ipv4(group) => group.bits == 0xe000_0001,
            IpAddress::Ipv6(group) => group.bits == 0xff02_0000_0000_0000_0000_0000_0000_0001
                || exists|i: int|
                0 <= i < addrs.len() && (#[trigger] addrs[i]).cidr is Ipv6
                    && addrs[i].cidr->Ipv6_0.address.bits != 1 && group.bits
                    == 0xff02_0000_0000_0000_0000_0001_ff00_0000
                    + addrs[i].cidr->Ipv6_0.address.bits as int % 0x100_0000,
        },
{
    if let IpAddress::Ipv6(group) = group {
        let base = 0xff02_0000_0000_0000_0000_0001_ff00_0000int;
        assert(group.solicited_node() <==> base <= group.bits < base + 0x100_0000);
        if exists|i: int|
            0 <= i < addrs.len() && (#[trigger] addrs[i]).cidr is Ipv6
                && addrs[i].cidr->Ipv6_0.address.bits != 1 && group.bits == base
                + addrs[i].cidr->Ipv6_0.address.bits as int % 0x100_0000 {
            let i = choose|i: int|
                0 <= i < addrs.len() && (#[trigger] addrs[i]).cidr is Ipv6
                    && addrs[i].cidr->Ipv6_0.address.bits != 1 && group.bits == base
                    + addrs[i].cidr->Ipv6_0.address.bits as int % 0x100_0000;
            assert(addrs[i].cidr is Ipv6);
        }
    }
}

/// An address is on the link of an interface if and only if it shares the prefix of one of
/// its addresses, and assigned to it if and only if it is one of them.
pub proof fn on_link_shares_a_prefix(addrs: Seq<IfaceAddr>, addr: IpAddress)
    requires
        forall|i: int| 0 <= i < addrs.len() ==> (#[trigger] addrs[i]).cidr.wf(),
    ensures
        addr_on_link(addrs, addr) <==> exists|i: int|
            0 <= i < addrs.len() && shares_prefix((#[trigger] addrs[i]).cidr, addr),
        addr_assigned(addrs, addr) <==> exists|i: int|
            0 <= i < addrs.len() && match ((#[trigger] addrs[i]).cidr, addr) {
                (IpCidr::Ipv4(cidr), IpAddress::Ipv4(addr)) => cidr.address.bits == addr.bits,
                (IpCidr::Ipv6(cidr), IpAddress::Ipv6(addr)) => cidr.address.bits == addr.bits,
                _ => false,
            },
{
    assert forall|i: int| 0 <= i < addrs.len() implies (#[trigger] addrs[i]).cidr.covers(addr)
        == shares_prefix(addrs[i].cidr, addr) by {
        subnet_is_its_prefix(addrs[i].cidr, addr);
    }
    assert forall|i: int| 0 <= i < addrs.len() implies ((#[trigger] addrs[i]).cidr.addr() == addr)
        == match (addrs[i].cidr, addr) {
        (IpCidr::Ipv4(cidr), IpAddress::Ipv4(addr)) => cidr.address.bits == addr.bits,
        (IpCidr::Ipv6(cidr), IpAddress::Ipv6(addr)) => cidr.address.bits == addr.bits,
        _ => false,
    } by {}
}

/// An IPv4 address is a broadcast address of an interface if and only if every bit of it is
/// set, or it shares the prefix of one of its subnets of more than two addresses and has
/// every other bit set.
pub proof fn broadcast_has_all_host_bits_set(addrs: Seq<IfaceAddr>, addr: Ipv4Address)
    requires
        forall|i: int| 0 <= i < addrs.len() ==> (#[trigger] addrs[i]).cidr.wf(),
    ensures
        broadcast_ipv4(addrs, addr) <==> addr.bits == 0xffff_ffff || exists|i: int|
            0 <= i < addrs.len() && (#[trigger] addrs[i]).cidr is Ipv4
                && addrs[i].cidr->Ipv4_0.prefix_len <= 30 && shares_prefix(
                addrs[i].cidr,
                IpAddress::Ipv4(addr),
            ) && addr.bits as int % pow2((32 - addrs[i].cidr->Ipv4_0.prefix_len) as nat) as int
                == pow2((32 - addrs[i].cidr->Ipv4_0.prefix_len) as nat) - 1,
{
    assert forall|i: int| 0 <= i < addrs.len() && (#[trigger] addrs[i]).cidr is Ipv4 implies (
    addrs[i].cidr->Ipv4_0.broadcast_addr() == Some(addr)) == (addrs[i].cidr->Ipv4_0.prefix_len
        <= 30 && shares_prefix(addrs[i].cidr, IpAddress::Ipv4(addr)) && addr.bits as int % pow2(
        (32 - addrs[i].cidr->Ipv4_0.prefix_len) as nat,
    ) as int == pow2((32 - addrs[i].cidr->Ipv4_0.prefix_len) as nat) - 1) by {
        let cidr = addrs[i].cidr->Ipv4_0;
        crate::wire::subnet_laws::special_addresses_of_a_subnet(cidr);
        cidr.lemma_bounds();
        if let Some(last) = cidr.broadcast_addr() {
            vstd::arithmetic::div_mod::lemma_fundamental_div_mod(last.bits as int, cidr.size());
            vstd::arithmetic::div_mod::lemma_fundamental_div_mod(addr.bits as int, cidr.size());
        }
    }
    if broadcast_ipv4(addrs, addr) && addr.bits != 0xffff_ffff {
        let i = choose|i: int|
            0 <= i < addrs.len() && ((#[trigger] addrs[i]).cidr matches IpCidr::Ipv4(cidr)
                && cidr.broadcast_addr() == Some(addr));
        assert(addrs[i].cidr is Ipv4);
    }
}

} // verus!

//! What holds of the addresses of an interface.

use super::access::{
    assigned_in_turn, has_link_local, invalidated, is_addr, not_link_local, readdressed, readdressing_matters,
    replaced_addrs, with_link_local,
};
use super::state::{addr_assigned, IfaceView};
use super::{link_local_of, AddrOrigin, IfaceAddr, IfaceBinding, IfaceHandle, Medium};
use crate::config::IFACE_ADDR_COUNT;
use crate::driver::{Capabilities, DriverCall, LinkState};
use crate::lists::{
    lemma_filter_drops, lemma_filter_from, lemma_filter_keeps, lemma_position, pairwise, position,
};
use crate::stack::{InnerView, LinkWorkView};
use crate::time::Instant;
use crate::wire::{HardwareAddress, IpAddress, IpCidr};
use vstd::prelude::*;

verus! {

/// The list that automatic link-local addresses are added to stays at its front.
proof fn lemma_given_addresses_stay(addrs: Seq<IfaceAddr>, old: Seq<IfaceAddr>)
    ensures
        addrs.len() <= with_link_local(addrs, old).len(),
        with_link_local(addrs, old).take(addrs.len() as int) == addrs,
    decreases old.len(),
{
    if old.len() > 0 {
        lemma_given_addresses_stay(addrs, old.drop_last());
        let before = with_link_local(addrs, old.drop_last());
        let after = with_link_local(addrs, old);
        assert(after.take(addrs.len() as int) =~= before.take(addrs.len() as int));
    } else {
        assert(addrs.take(addrs.len() as int) =~= addrs);
    }
}

/// Assigning addresses in turn assigns each of them once.
proof fn lemma_assigned_in_turn(cidrs: Seq<IpCidr>)
    ensures
        pairwise(assigned_in_turn(cidrs), different_addresses()),
        forall|i: int|
            0 <= i < cidrs.len() ==> addr_assigned(
                assigned_in_turn(cidrs),
                (#[trigger] cidrs[i]).addr(),
            ),
    decreases cidrs.len(),
{
    if cidrs.len() > 0 {
        let rest = cidrs.drop_last();
        let last = cidrs.last();
        let before = assigned_in_turn(rest);
        let after = assigned_in_turn(cidrs);
        lemma_assigned_in_turn(rest);
        adding_keeps_addresses_apart(before, last);
        lemma_position(before, is_addr(last.addr()));
        assert forall|i: int| 0 <= i < cidrs.len() implies addr_assigned(
            after,
            (#[trigger] cidrs[i]).addr(),
        ) by {
            let addr = cidrs[i].addr();
            let at = position(before, is_addr(last.addr()));
            if i < rest.len() {
                assert(rest[i] == cidrs[i]);
                let k = choose|k: int|
                    0 <= k < before.len() && (#[trigger] before[k]).cidr.addr() == addr;
                if at is Some {
                    assert(is_addr(last.addr())(before[at->0]));
                }
                assert(after[k].cidr.addr() == addr);
            } else {
                match at {
                    Some(k) => {
                        assert(after[k].cidr.addr() == addr);
                    },
                    None => {
                        assert(after[before.len() as int].cidr.addr() == addr);
                    },
                }
            }
        }
    }
}

/// Replacing the addresses assigns every given one.
pub proof fn given_addresses_are_assigned(old: Seq<IfaceAddr>, cidrs: Seq<IpCidr>, index: int)
    requires
        0 <= index < cidrs.len(),
    ensures
        addr_assigned(replaced_addrs(old, cidrs), cidrs[index].addr()),
{
    let given = assigned_in_turn(cidrs);
    let after = replaced_addrs(old, cidrs);
    lemma_assigned_in_turn(cidrs);
    lemma_given_addresses_stay(given, old);
    let k = choose|k: int|
        0 <= k < given.len() && (#[trigger] given[k]).cidr.addr() == cidrs[index].addr();
    assert(after.take(given.len() as int)[k] == given[k]);
    assert(after[k].cidr.addr() == cidrs[index].addr());
}

/// Adding link-local addresses that are not there yet keeps addresses apart.
proof fn lemma_link_local_apart(addrs: Seq<IfaceAddr>, old: Seq<IfaceAddr>)
    requires
        pairwise(addrs, different_addresses()),
    ensures
        pairwise(with_link_local(addrs, old), different_addresses()),
    decreases old.len(),
{
    if old.len() > 0 {
        let r = different_addresses();
        let before = with_link_local(addrs, old.drop_last());
        let after = with_link_local(addrs, old);
        lemma_link_local_apart(addrs, old.drop_last());
        assert forall|i: int, j: int| 0 <= i < j < after.len() implies r(
            #[trigger] after[i],
            #[trigger] after[j],
        ) by {
            if j < before.len() {
                assert(r(before[i], before[j]));
            } else {
                assert(before[i].cidr.addr() != after[j].cidr.addr());
            }
        }
    }
}

/// After replacing the addresses, every address is assigned once.
pub proof fn replaced_addresses_are_apart(old: Seq<IfaceAddr>, cidrs: Seq<IpCidr>)
    ensures
        pairwise(replaced_addrs(old, cidrs), different_addresses()),
{
    lemma_assigned_in_turn(cidrs);
    lemma_link_local_apart(assigned_in_turn(cidrs), old);
}

/// Automatic link-local addresses are added.
proof fn lemma_link_local_is_added(addrs: Seq<IfaceAddr>, old: Seq<IfaceAddr>, index: int)
    requires
        0 <= index < old.len(),
        old[index].origin == AddrOrigin::LinkLocal,
    ensures
        addr_assigned(with_link_local(addrs, old), old[index].cidr.addr()),
    decreases old.len(),
{
    let before = with_link_local(addrs, old.drop_last());
    let after = with_link_local(addrs, old);
    let addr = old[index].cidr.addr();
    if index < old.len() - 1 {
        lemma_link_local_is_added(addrs, old.drop_last(), index);
        let k = choose|k: int| 0 <= k < before.len() && (#[trigger] before[k]).cidr.addr() == addr;
        assert(after[k].cidr.addr() == addr);
    } else if addr_assigned(before, addr) {
        assert(after == before);
    } else {
        assert(after[before.len() as int].cidr.addr() == addr);
    }
}

/// Replacing the addresses keeps the automatic link-local address.
pub proof fn replacing_addresses_keeps_link_local(
    old: Seq<IfaceAddr>,
    cidrs: Seq<IpCidr>,
    index: int,
)
    requires
        0 <= index < old.len(),
        old[index].origin == AddrOrigin::LinkLocal,
    ensures
        addr_assigned(replaced_addrs(old, cidrs), old[index].cidr.addr()),
{
    lemma_link_local_is_added(assigned_in_turn(cidrs), old, index);
}

/// The automatic link-local address follows the hardware address: no other one is
/// left, and it is there if there is room.
pub proof fn link_local_follows_the_hardware_address(
    addrs: Seq<IfaceAddr>,
    hardware_addr: HardwareAddress,
)
    ensures
        forall|k: int|
            0 <= k < readdressed(addrs, hardware_addr).len() && (#[trigger] readdressed(
                addrs,
                hardware_addr,
            )[k]).origin == AddrOrigin::LinkLocal ==> link_local_of(hardware_addr) == Some(
                readdressed(addrs, hardware_addr)[k],
            ),
        addrs.filter(not_link_local()).len() < IFACE_ADDR_COUNT && link_local_of(
            hardware_addr,
        ) is Some ==> readdressed(addrs, hardware_addr).contains(link_local_of(hardware_addr)->0),
{
    let others = addrs.filter(not_link_local());
    let after = readdressed(addrs, hardware_addr);
    assert forall|k: int|
        0 <= k < after.len() && (#[trigger] after[k]).origin
            == AddrOrigin::LinkLocal implies link_local_of(hardware_addr) == Some(after[k]) by {
        if k < others.len() {
            lemma_filter_from(addrs, not_link_local(), k);
        }
    }
    if others.len() < IFACE_ADDR_COUNT && link_local_of(hardware_addr) is Some {
        assert(after[others.len() as int] == link_local_of(hardware_addr)->0);
    }
}

/// An interface that has its automatic link-local address has room for the next one: a
/// change of the hardware address drops the old one first.
pub proof fn readdressing_has_room_for_link_local(
    iface: IfaceView,
    hardware_addr: HardwareAddress,
)
    requires
        iface.wf(),
        has_link_local(iface.ip_addrs),
        link_local_of(hardware_addr) is Some,
    ensures
        readdressed(iface.ip_addrs, hardware_addr).contains(link_local_of(hardware_addr)->0),
{
    let i = choose|i: int|
        0 <= i < iface.ip_addrs.len() && (#[trigger] iface.ip_addrs[i]).origin
            == AddrOrigin::LinkLocal;
    assert(!not_link_local()(iface.ip_addrs[i]));
    lemma_filter_drops(iface.ip_addrs, not_link_local());
    link_local_follows_the_hardware_address(iface.ip_addrs, hardware_addr);
}

/// A change of the hardware address keeps every other address.
pub proof fn other_addresses_outlive_the_hardware_address(
    addrs: Seq<IfaceAddr>,
    hardware_addr: HardwareAddress,
    index: int,
)
    requires
        0 <= index < addrs.len(),
        addrs[index].origin != AddrOrigin::LinkLocal,
    ensures
        readdressed(addrs, hardware_addr).contains(addrs[index]),
{
    let others = addrs.filter(not_link_local());
    let after = readdressed(addrs, hardware_addr);
    lemma_filter_keeps(addrs, not_link_local(), index);
    let k = choose|k: int| 0 <= k < others.len() && #[trigger] others[k] == addrs[index];
    assert(after[k] == addrs[index]);
}

/// Whether two assigned addresses differ.
pub open spec fn different_addresses() -> spec_fn(IfaceAddr, IfaceAddr) -> bool {
    |a: IfaceAddr, b: IfaceAddr| a.cidr.addr() != b.cidr.addr()
}

/// Where every address is assigned once, adding one keeps it so.
pub proof fn adding_keeps_addresses_apart(addrs: Seq<IfaceAddr>, cidr: IpCidr)
    requires
        pairwise(addrs, different_addresses()),
    ensures
        position(addrs, is_addr(cidr.addr())) is None ==> pairwise(
            addrs.push(IfaceAddr::by_hand(cidr)),
            different_addresses(),
        ),
        position(addrs, is_addr(cidr.addr())) matches Some(i) ==> pairwise(
            addrs.update(i, IfaceAddr::by_hand(cidr)),
            different_addresses(),
        ),
{
    let p = is_addr(cidr.addr());
    let r = different_addresses();
    lemma_position(addrs, p);
    match position(addrs, p) {
        Some(at) => {
            let after = addrs.update(at, IfaceAddr::by_hand(cidr));
            assert(p(addrs[at]));
            assert forall|i: int, j: int| 0 <= i < j < after.len() implies r(
                #[trigger] after[i],
                #[trigger] after[j],
            ) by {
                assert(r(addrs[i], addrs[j]));
            }
        },
        None => {
            let after = addrs.push(IfaceAddr::by_hand(cidr));
            assert forall|i: int, j: int| 0 <= i < j < after.len() implies r(
                #[trigger] after[i],
                #[trigger] after[j],
            ) by {
                if j < addrs.len() {
                    assert(r(addrs[i], addrs[j]));
                } else {
                    assert(!p(addrs[i]));
                }
            }
        },
    }
}

/// Where every address is assigned once, one that is removed is no longer assigned,
/// and the others are.
pub proof fn removed_address_is_gone(addrs: Seq<IfaceAddr>, addr: IpAddress)
    requires
        pairwise(addrs, different_addresses()),
        position(addrs, is_addr(addr)) is Some,
    ensures
        !addr_assigned(addrs.remove(position(addrs, is_addr(addr))->0), addr),
        pairwise(addrs.remove(position(addrs, is_addr(addr))->0), different_addresses()),
{
    let p = is_addr(addr);
    let r = different_addresses();
    lemma_position(addrs, p);
    let at = position(addrs, p)->0;
    let after = addrs.remove(at);
    assert(p(addrs[at]));
    assert forall|k: int| 0 <= k < after.len() implies (#[trigger] after[k]).cidr.addr() != addr by {
        if k < at {
            assert(r(addrs[k], addrs[at]));
        } else {
            assert(r(addrs[at], addrs[k + 1]));
        }
    }
    assert forall|i: int, j: int| 0 <= i < j < after.len() implies r(
        #[trigger] after[i],
        #[trigger] after[j],
    ) by {
        let a = if i < at {
            i
        } else {
            i + 1
        };
        let b = if j < at {
            j
        } else {
            j + 1
        };
        assert(after[i] == addrs[a] && after[j] == addrs[b]);
        assert(r(addrs[a], addrs[b]));
    }
}

/// Whether two subnets are of the same address.
pub open spec fn is_same_address(a: IpCidr, b: IpCidr) -> bool {
    match (a, b) {
        (IpCidr::Ipv4(a), IpCidr::Ipv4(b)) => a.address.bits == b.address.bits,
        (IpCidr::Ipv6(a), IpCidr::Ipv6(b)) => a.address.bits == b.address.bits,
        _ => false,
    }
}

/// Whether the subnet at `index` is the last given of its address.
pub open spec fn is_last_given(cidrs: Seq<IpCidr>, index: int) -> bool {
    &&& 0 <= index < cidrs.len()
    &&& forall|j: int|
        index < j < cidrs.len() ==> !is_same_address(#[trigger] cidrs[j], cidrs[index])
}

/// Whether an address was assigned by hand, with the prefix it was last given with.
pub open spec fn is_as_last_given(cidrs: Seq<IpCidr>, addr: IfaceAddr) -> bool {
    &&& addr.origin == AddrOrigin::Manual
    &&& addr.preferred_until is None
    &&& exists|i: int| #[trigger] is_last_given(cidrs, i) && addr.cidr == cidrs[i]
}

/// Whether an address is among others, with whichever prefix.
pub open spec fn is_among(addrs: Seq<IfaceAddr>, cidr: IpCidr) -> bool {
    exists|k: int| 0 <= k < addrs.len() && is_same_address((#[trigger] addrs[k]).cidr, cidr)
}

/// Whether an address is given at `index`.
pub open spec fn is_given_at(cidrs: Seq<IpCidr>, cidr: IpCidr, index: int) -> bool {
    0 <= index < cidrs.len() && is_same_address(cidrs[index], cidr)
}

/// Whether an address is given before `end`.
pub open spec fn is_given_before(cidrs: Seq<IpCidr>, cidr: IpCidr, end: int) -> bool {
    exists|i: int| 0 <= i < end && is_same_address(#[trigger] cidrs[i], cidr)
}

/// Whether addresses are those given: each once, with the prefix it was last given with, and
/// in the order in which they were first given.
pub open spec fn are_as_given(cidrs: Seq<IpCidr>, addrs: Seq<IfaceAddr>) -> bool {
    &&& forall|k: int| 0 <= k < addrs.len() ==> #[trigger] is_as_last_given(cidrs, addrs[k])
    &&& forall|i: int| 0 <= i < cidrs.len() ==> #[trigger] is_among(addrs, cidrs[i])
    &&& are_apart(addrs)
    &&& are_in_order(cidrs, addrs)
}

/// Whether each address is assigned once.
pub open spec fn are_apart(addrs: Seq<IfaceAddr>) -> bool {
    forall|k: int, l: int|
        0 <= k < l < addrs.len() ==> !is_same_address(
            (#[trigger] addrs[k]).cidr,
            (#[trigger] addrs[l]).cidr,
        )
}

/// Whether addresses are in the order in which they were first given.
pub open spec fn are_in_order(cidrs: Seq<IpCidr>, addrs: Seq<IfaceAddr>) -> bool {
    forall|k: int, l: int, j: int|
        0 <= k < l < addrs.len() && #[trigger] is_given_at(cidrs, addrs[l].cidr, j)
            ==> #[trigger] is_given_before(cidrs, addrs[k].cidr, j)
}

/// The addresses once another was assigned by hand.
spec fn with_given(before: Seq<IfaceAddr>, last: IpCidr) -> Seq<IfaceAddr> {
    match position(before, is_addr(last.addr())) {
        Some(i) => before.update(i, IfaceAddr::by_hand(last)),
        None => before.push(IfaceAddr::by_hand(last)),
    }
}

/// One more address takes the place of the one it is the same as, or the last place.
proof fn lemma_with_given(before: Seq<IfaceAddr>, last: IpCidr)
    requires
        are_apart(before),
    ensures
        ({
            let after = with_given(before, last);
            let fresh = IfaceAddr::by_hand(last);
            &&& before.len() <= after.len() <= before.len() + 1
            &&& forall|k: int|
                0 <= k < before.len() ==> is_same_address((#[trigger] after[k]).cidr, before[k].cidr)
            &&& forall|k: int|
                0 <= k < after.len() ==> #[trigger] after[k] == fresh || (k < before.len()
                    && after[k] == before[k] && !is_same_address(before[k].cidr, last))
            &&& after.len() > before.len() ==> after.last() == fresh && !is_among(before, last)
            &&& exists|k: int| 0 <= k < after.len() && #[trigger] after[k] == fresh
        }),
{
    let p = is_addr(last.addr());
    let after = with_given(before, last);
    lemma_position(before, p);
    assert forall|k: int| 0 <= k < before.len() implies (is_same_address(
        (#[trigger] before[k]).cidr,
        last,
    ) <==> p(before[k])) by {}
    match position(before, p) {
        Some(at) => {
            assert(p(before[at]));
            assert(after[at] == IfaceAddr::by_hand(last));
            assert forall|k: int| 0 <= k < before.len() && k != at implies !is_same_address(
                (#[trigger] before[k]).cidr,
                last,
            ) by {
                if at < k {
                    assert(!is_same_address(before[at].cidr, before[k].cidr));
                }
            }
        },
        None => {
            assert(after[before.len() as int] == IfaceAddr::by_hand(last));
        },
    }
}

/// One more address is assigned as it was last given.
proof fn lemma_last_given_step(cidrs: Seq<IpCidr>, before: Seq<IfaceAddr>)
    requires
        cidrs.len() > 0,
        are_apart(before),
        forall|k: int|
            0 <= k < before.len() ==> #[trigger] is_as_last_given(cidrs.drop_last(), before[k]),
        forall|i: int|
            0 <= i < cidrs.len() - 1 ==> #[trigger] is_among(before, cidrs.drop_last()[i]),
    ensures
        ({
            let after = with_given(before, cidrs.last());
            &&& forall|k: int| 0 <= k < after.len() ==> #[trigger] is_as_last_given(cidrs, after[k])
            &&& forall|i: int| 0 <= i < cidrs.len() ==> #[trigger] is_among(after, cidrs[i])
            &&& are_apart(after)
        }),
{
    let rest = cidrs.drop_last();
    let last = cidrs.last();
    let n = cidrs.len() - 1;
    let after = with_given(before, last);
    let fresh = IfaceAddr::by_hand(last);
    lemma_with_given(before, last);
    assert(forall|i: int| 0 <= i < n ==> #[trigger] rest[i] == cidrs[i]);
    assert forall|k: int| 0 <= k < after.len() implies #[trigger] is_as_last_given(
        cidrs,
        after[k],
    ) by {
        if after[k] == fresh {
            assert(is_last_given(cidrs, n));
        } else {
            assert(is_as_last_given(rest, before[k]));
            let i = choose|i: int| #[trigger] is_last_given(rest, i) && before[k].cidr == rest[i];
            assert forall|j: int| i < j < cidrs.len() implies !is_same_address(
                #[trigger] cidrs[j],
                cidrs[i],
            ) by {
                if j < n {
                    assert(!is_same_address(rest[j], rest[i]));
                }
            }
            assert(is_last_given(cidrs, i));
        }
    }
    assert forall|i: int| 0 <= i < cidrs.len() implies #[trigger] is_among(after, cidrs[i]) by {
        if i < n {
            assert(is_among(before, rest[i]));
            let k = choose|k: int|
                0 <= k < before.len() && is_same_address((#[trigger] before[k]).cidr, rest[i]);
            assert(is_same_address(after[k].cidr, cidrs[i]));
        } else {
            let k = choose|k: int| 0 <= k < after.len() && #[trigger] after[k] == fresh;
            assert(is_same_address(after[k].cidr, cidrs[i]));
        }
    }
    assert forall|k: int, l: int| 0 <= k < l < after.len() implies !is_same_address(
        (#[trigger] after[k]).cidr,
        (#[trigger] after[l]).cidr,
    ) by {
        assert(is_same_address(after[k].cidr, before[k].cidr));
        if l < before.len() {
            assert(is_same_address(after[l].cidr, before[l].cidr));
            assert(!is_same_address(before[k].cidr, before[l].cidr));
        } else {
            assert(!is_same_address(before[k].cidr, last));
        }
    }
}

/// One more address keeps the order.
proof fn lemma_order_step(cidrs: Seq<IpCidr>, before: Seq<IfaceAddr>, k: int, l: int, j: int)
    requires
        cidrs.len() > 0,
        are_apart(before),
        forall|k: int|
            0 <= k < before.len() ==> #[trigger] is_as_last_given(cidrs.drop_last(), before[k]),
        forall|i: int|
            0 <= i < cidrs.len() - 1 ==> #[trigger] is_among(before, cidrs.drop_last()[i]),
        are_in_order(cidrs.drop_last(), before),
        0 <= k < l < with_given(before, cidrs.last()).len(),
        0 <= j < cidrs.len(),
        is_given_at(cidrs, with_given(before, cidrs.last())[l].cidr, j),
    ensures
        is_given_before(cidrs, with_given(before, cidrs.last())[k].cidr, j),
{
    let rest = cidrs.drop_last();
    let last = cidrs.last();
    let n = cidrs.len() - 1;
    let after = with_given(before, last);
    lemma_with_given(before, last);
    assert(is_same_address(after[k].cidr, before[k].cidr));
    if j < n && l < before.len() {
        assert(rest[j] == cidrs[j]);
        assert(is_same_address(after[l].cidr, before[l].cidr));
        assert(is_given_at(rest, before[l].cidr, j));
        assert(is_given_before(rest, before[k].cidr, j));
        let h = choose|h: int| 0 <= h < j && is_same_address(#[trigger] rest[h], before[k].cidr);
        assert(is_same_address(cidrs[h], after[k].cidr));
    } else if j < n {
        assert(is_among(before, rest[j]));
        let h = choose|h: int|
            0 <= h < before.len() && is_same_address((#[trigger] before[h]).cidr, rest[j]);
        assert(is_same_address(before[h].cidr, last));
        assert(is_among(before, last));
    } else {
        assert(is_as_last_given(rest, before[k]));
        let i = choose|i: int| #[trigger] is_last_given(rest, i) && before[k].cidr == rest[i];
        assert(rest[i] == cidrs[i]);
        assert(is_same_address(cidrs[i], after[k].cidr));
    }
}

/// Every address in turn.
proof fn lemma_as_given(cidrs: Seq<IpCidr>)
    ensures
        are_as_given(cidrs, assigned_in_turn(cidrs)),
    decreases cidrs.len(),
{
    if cidrs.len() > 0 {
        let before = assigned_in_turn(cidrs.drop_last());
        let after = with_given(before, cidrs.last());
        lemma_as_given(cidrs.drop_last());
        lemma_last_given_step(cidrs, before);
        assert forall|k: int, l: int, j: int|
            0 <= k < l < after.len() && #[trigger] is_given_at(
                cidrs,
                after[l].cidr,
                j,
            ) implies #[trigger] is_given_before(cidrs, after[k].cidr, j) by {
            lemma_order_step(cidrs, before, k, l, j);
        }
    }
}

/// Whether addresses are those of `given` and, behind them, link-local ones that were there
/// before and were not given.
pub open spec fn are_with_link_local(
    given: Seq<IfaceAddr>,
    old: Seq<IfaceAddr>,
    after: Seq<IfaceAddr>,
) -> bool {
    &&& given.len() <= after.len()
    &&& forall|k: int| 0 <= k < given.len() ==> #[trigger] after[k] == given[k]
    &&& forall|k: int|
        given.len() <= k < after.len() ==> (#[trigger] after[k]).origin == AddrOrigin::LinkLocal
            && old.contains(after[k]) && !is_among(after.take(k), after[k].cidr)
    &&& forall|i: int|
        0 <= i < old.len() && (#[trigger] old[i]).origin == AddrOrigin::LinkLocal ==> is_among(
            after,
            old[i].cidr,
        )
}

/// Link-local addresses are added as they were.
proof fn lemma_with_link_local(given: Seq<IfaceAddr>, old: Seq<IfaceAddr>)
    ensures
        are_with_link_local(given, old, with_link_local(given, old)),
    decreases old.len(),
{
    if old.len() > 0 {
        let rest = old.drop_last();
        let last = old.last();
        let before = with_link_local(given, rest);
        let after = with_link_local(given, old);
        lemma_with_link_local(given, rest);
        assert(addr_assigned(before, last.cidr.addr()) <==> is_among(before, last.cidr)) by {
            assert forall|k: int| 0 <= k < before.len() implies (is_same_address(
                (#[trigger] before[k]).cidr,
                last.cidr,
            ) <==> before[k].cidr.addr() == last.cidr.addr()) by {}
        }
        assert(forall|k: int| 0 <= k < before.len() ==> #[trigger] after[k] == before[k]);
        assert forall|k: int| given.len() <= k < after.len() implies (#[trigger] after[k]).origin
            == AddrOrigin::LinkLocal && old.contains(after[k]) && !is_among(
            after.take(k),
            after[k].cidr,
        ) by {
            if k < before.len() {
                let i = choose|i: int| 0 <= i < rest.len() && #[trigger] rest[i] == before[k];
                assert(old[i] == after[k]);
                assert(after.take(k) =~= before.take(k));
            } else {
                assert(old[old.len() - 1] == after[k]);
                assert(after.take(k) =~= before);
            }
        }
        assert forall|i: int|
            0 <= i < old.len() && (#[trigger] old[i]).origin
                == AddrOrigin::LinkLocal implies is_among(after, old[i].cidr) by {
            if i < rest.len() {
                assert(rest[i] == old[i]);
                assert(is_among(before, rest[i].cidr));
                let k = choose|k: int|
                    0 <= k < before.len() && is_same_address(
                        (#[trigger] before[k]).cidr,
                        rest[i].cidr,
                    );
                assert(is_same_address(after[k].cidr, old[i].cidr));
            } else if is_among(before, last.cidr) {
                let k = choose|k: int|
                    0 <= k < before.len() && is_same_address((#[trigger] before[k]).cidr, last.cidr);
                assert(is_same_address(after[k].cidr, old[i].cidr));
            } else {
                assert(is_same_address(after[before.len() as int].cidr, old[i].cidr));
            }
        }
    }
}

/// Replacing the addresses leaves those given, each with the prefix it was last given with,
/// and the link-local ones that were there.
pub proof fn replaced_addresses_are_those_given(
    old: Seq<IfaceAddr>,
    cidrs: Seq<IpCidr>,
) -> (given: Seq<IfaceAddr>)
    ensures
        are_as_given(cidrs, given),
        given.len() == assigned_in_turn(cidrs).len(),
        are_with_link_local(given, old, replaced_addrs(old, cidrs)),
{
    lemma_as_given(cidrs);
    lemma_with_link_local(assigned_in_turn(cidrs), old);
    assigned_in_turn(cidrs)
}

/// An address is found where it first is, whichever its prefix and wherever it came from.
pub proof fn addresses_are_found_by_value(addrs: Seq<IfaceAddr>, cidr: IpCidr)
    ensures
        match position(addrs, is_addr(cidr.addr())) {
            Some(i) => 0 <= i < addrs.len() && is_same_address(addrs[i].cidr, cidr) && forall|k: int|
                0 <= k < i ==> !is_same_address((#[trigger] addrs[k]).cidr, cidr),
            None => !is_among(addrs, cidr),
        },
        addr_assigned(addrs, cidr.addr()) <==> is_among(addrs, cidr),
{
    let p = is_addr(cidr.addr());
    lemma_position(addrs, p);
    assert forall|k: int| 0 <= k < addrs.len() implies (is_same_address(
        (#[trigger] addrs[k]).cidr,
        cidr,
    ) <==> p(addrs[k])) by {}
}

/// A hardware address with an interface identifier has the link-local address of `fe80::/64`
/// with it, which is preferred forever.
pub proof fn link_local_address_of_an_identifier(hardware_addr: HardwareAddress)
    ensures
        link_local_of(hardware_addr) is Some <==> hardware_addr.eui_64() is Some,
        link_local_of(hardware_addr) matches Some(addr) ==> {
            &&& addr.origin == AddrOrigin::LinkLocal
            &&& addr.preferred_until is None
            &&& addr.cidr matches IpCidr::Ipv6(cidr) && cidr.prefix_len == 64 && cidr.address.bits
                == 0xfe80_0000_0000_0000_0000_0000_0000_0000 + hardware_addr.eui_64()->0
        },
{
    crate::wire::format_laws::interface_identifiers(hardware_addr);
}

/// A change of the hardware address drops the automatic link-local addresses, and puts the new
/// one, if there is one and room for it, behind the others. It is a change to the addresses if
/// there is a new one or was an old one.
pub proof fn new_link_local_address_is_the_last(
    addrs: Seq<IfaceAddr>,
    hardware_addr: HardwareAddress,
)
    ensures
        ({
            let after = readdressed(addrs, hardware_addr);
            let others = addrs.filter(|addr: IfaceAddr| addr.origin != AddrOrigin::LinkLocal);
            match link_local_of(hardware_addr) {
                Some(addr) => if others.len() < 8 {
                    after.len() == others.len() + 1 && after.drop_last() == others && after.last()
                        == addr
                } else {
                    after == others
                },
                None => after == others,
            }
        }),
        readdressing_matters(addrs, hardware_addr) <==> hardware_addr.eui_64() is Some || exists|
            i: int,
        |
            0 <= i < addrs.len() && (#[trigger] addrs[i]).origin == AddrOrigin::LinkLocal,
{
    let p = |addr: IfaceAddr| addr.origin != AddrOrigin::LinkLocal;
    assert(p =~= not_link_local());
    let after = readdressed(addrs, hardware_addr);
    let others = addrs.filter(p);
    if link_local_of(hardware_addr) is Some && others.len() < 8 {
        assert(after.drop_last() =~= others);
    }
}

/// An address that was assigned by hand says so, and is preferred forever. One with a limit is
/// preferred until then.
pub proof fn addresses_are_preferred_until_their_limit(cidr: IpCidr, addr: IfaceAddr, now: Instant)
    ensures
        IfaceAddr::by_hand(cidr).cidr == cidr,
        IfaceAddr::by_hand(cidr).origin == AddrOrigin::Manual,
        IfaceAddr::by_hand(cidr).preferred_until is None,
        addr.preferred_until is None ==> addr.preferred(now),
        addr.preferred_until matches Some(until) ==> (addr.preferred(now) <==> now.micros
            < until.micros),
{
}

/// A change of the configuration is counted and wakes the task that waits, and changes nothing
/// else. A call of the driver is put on record, and changes nothing else.
pub proof fn changes_are_counted(iface: IfaceView, call: DriverCall)
    ensures
        iface.changed() == (IfaceView {
            config_generation: iface.changed().config_generation,
            waker: iface.waker.fired(),
            ..iface
        }),
        iface.config_generation < u32::MAX ==> iface.changed().config_generation
            == iface.config_generation + 1,
        iface.config_generation == u32::MAX ==> iface.changed().config_generation == 0,
        iface.called(call).calls.len() == iface.calls.len() + 1,
        iface.called(call).calls.last() == call,
        iface.called(call).calls.drop_last() == iface.calls,
        iface.called(call) == (IfaceView { calls: iface.called(call).calls, ..iface }),
{
    assert(iface.called(call).calls.drop_last() =~= iface.calls);
}

/// An interface that was just added has no address but the link-local one, no server, no
/// SLAAC, and its link is down.
pub proof fn added_interface_is_idle(
    handle: IfaceHandle,
    caps: Capabilities,
    hardware_addr: HardwareAddress,
)
    ensures
        ({
            let iface = IfaceView::added(handle, caps, hardware_addr);
            &&& iface.handle == handle
            &&& iface.caps == caps
            &&& iface.hardware_addr == hardware_addr
            &&& iface.medium == hardware_addr.used_on()
            &&& match link_local_of(hardware_addr) {
                Some(addr) => iface.ip_addrs.len() == 1 && iface.ip_addrs[0] == addr,
                None => iface.ip_addrs.len() == 0,
            }
            &&& iface.config_generation == 0
            &&& iface.waker.waiting is None
            &&& iface.waker.woken.len() == 0
            &&& iface.dhcpv4_server is None
            &&& iface.slaac is None
            &&& iface.last_link_state == LinkState::Down
            &&& !iface.fragments_pending
            &&& iface.calls.len() == 0
        }),
{
}

/// The longest IP packet is what is left of a frame behind its header of 14 bytes, where there
/// is one, and no more than 1500 bytes.
pub proof fn longest_packet_fits_in_a_frame(iface: IfaceView)
    ensures
        iface.mtu() <= 1500,
        ({
            let taken = match iface.medium {
                Medium::Ethernet => iface.caps.max_transmission_unit - 14,
                Medium::Ip => iface.caps.max_transmission_unit as int,
                Medium::Ieee802154 => iface.caps.lowpan_ip_mtu as int,
            };
            iface.mtu() <= taken && (iface.mtu() == taken || iface.mtu() == 1500)
        }),
{
}

/// A socket bound to an interface uses that one alone, and the match is the better one. A
/// socket that is not bound uses every interface.
pub proof fn bound_socket_uses_one_interface(iface: IfaceHandle, other: IfaceHandle)
    ensures
        IfaceBinding::of(Some(iface)).admits(other) <==> iface == other,
        IfaceBinding::of(None).admits(other),
        IfaceBinding::of(Some(iface)).bound() == Some(iface),
        IfaceBinding::of(None).bound() is None,
        IfaceBinding::of(Some(iface)).score(other) is Some <==> iface == other,
        IfaceBinding::of(None).score(other) is Some,
        IfaceBinding::of(None).score(iface)->0 < IfaceBinding::of(Some(iface)).score(iface)->0,
        Medium::Ethernet.for_driver() is Ethernet,
        Medium::Ip.for_driver() is Ip,
        Medium::Ieee802154.for_driver() is Ieee802154,
{
}

/// Where the configuration of a link changes, its neighbors are forgotten, and nothing else of
/// what interfaces share.
pub proof fn neighbors_of_the_link_are_forgotten(inner: InnerView, iface: IfaceHandle)
    ensures
        invalidated(inner, iface).now == inner.now,
        invalidated(inner, iface).routes == inner.routes,
        invalidated(inner, iface).work.len() == inner.work.len() + 1,
        invalidated(inner, iface).work.drop_last() == inner.work,
        invalidated(inner, iface).work.last() == (LinkWorkView::Purge { iface }),
{
    assert(invalidated(inner, iface).work.drop_last() =~= inner.work);
}

} // verus!

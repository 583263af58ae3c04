//! What the DHCPv4 server promises its clients.

use super::dhcpv4_leases::{
    available_for, find_by_client, is_longest_expired, ClientIdView, DhcpServerLeaseState,
    LeaseView,
};
use super::dhcpv4_server::{
    addr_in_option, answer_to, claimed_addr, client_of, decline, discover, ends_in_time, entry_for,
    grant, granted_duration, is_running, leasable, noted, offered_lease, pick_addr, release,
    request_step, requested_duration, server_step, usable, DhcpServerConfig, DECLINE_TIMEOUT,
    MIN_LEASE_DURATION,
};
use crate::config::DHCP_SERVER_LEASE_COUNT;
use crate::lists::{
    lemma_filter_drops, lemma_filter_from, lemma_filter_keeps, lemma_filter_pairwise,
    lemma_position, lemma_position_is, lemma_position_none, pairwise,
};
use crate::time::{Duration, Instant};
use crate::wire::dhcpv4::{DhcpMessageType, DhcpRequestView};
use crate::wire::{EthernetAddress, Ipv4Address, Ipv4Cidr};
use vstd::prelude::*;

verus! {

/// The client a lease was made for.
pub open spec fn holder(lease: LeaseView) -> ClientIdView {
    match lease.client_id {
        Some(bytes) => ClientIdView::Id(bytes),
        None => ClientIdView::Hw(lease.hardware_addr),
    }
}

/// Whether the lease gives its client the address at this time.
pub open spec fn held(lease: LeaseView, now: Instant) -> bool {
    (lease.state == DhcpServerLeaseState::Offered || lease.state == DhcpServerLeaseState::Bound)
        && lease.expires_at.micros > now.micros
}

/// Two leases are not the same client's, unless one was declined.
pub open spec fn different_clients() -> spec_fn(LeaseView, LeaseView) -> bool {
    |a: LeaseView, b: LeaseView|
        a.state != DhcpServerLeaseState::Declined && b.state != DhcpServerLeaseState::Declined
            ==> holder(a) != holder(b)
}

/// Two leases do not give out the same address.
pub open spec fn different_addresses(now: Instant) -> spec_fn(LeaseView, LeaseView) -> bool {
    |a: LeaseView, b: LeaseView| held(a, now) && held(b, now) ==> a.address != b.address
}

/// Whether the leases of a table that fits are apart: every client has at most one
/// that was not declined, and no address is given to two clients.
pub open spec fn leases_apart(t: Seq<LeaseView>, now: Instant) -> bool {
    &&& t.len() <= DHCP_SERVER_LEASE_COUNT
    &&& pairwise(t, different_clients())
    &&& pairwise(t, different_addresses(now))
}

/// What holds of the lease table at any time: its leases are apart, every address is
/// from the pool, and no lease runs longer than configured.
pub open spec fn table_ok(config: DhcpServerConfig, t: Seq<LeaseView>, now: Instant) -> bool {
    &&& leases_apart(t, now)
    &&& forall|i: int| 0 <= i < t.len() ==> config.pools((#[trigger] t[i]).address)
    &&& forall|i: int|
        0 <= i < t.len() && (#[trigger] t[i]).state == DhcpServerLeaseState::Bound
            ==> t[i].expires_at.micros <= now.micros + config.lease_duration.micros
}

/// A server starts with a table that is in order.
pub proof fn empty_table_ok(config: DhcpServerConfig, now: Instant)
    ensures
        table_ok(config, Seq::empty(), now),
{
}

/// Leases that are apart stay so as time passes.
pub proof fn time_keeps_leases_apart(t: Seq<LeaseView>, before: Instant, now: Instant)
    requires
        leases_apart(t, before),
        before.micros <= now.micros,
    ensures
        leases_apart(t, now),
{
    assert forall|i: int, j: int| 0 <= i < j < t.len() implies different_addresses(now)(
        #[trigger] t[i],
        #[trigger] t[j],
    ) by {
        assert(different_addresses(before)(t[i], t[j]));
    }
}

/// A table that is in order stays so as time passes.
pub proof fn time_keeps_table_ok(
    config: DhcpServerConfig,
    t: Seq<LeaseView>,
    before: Instant,
    now: Instant,
)
    requires
        table_ok(config, t, before),
        before.micros <= now.micros,
    ensures
        table_ok(config, t, now),
{
    time_keeps_leases_apart(t, before, now);
}

/// Leaving leases out keeps those that stay apart.
pub proof fn lemma_filter_apart(t: Seq<LeaseView>, now: Instant, p: spec_fn(LeaseView) -> bool)
    requires
        leases_apart(t, now),
    ensures
        leases_apart(t.filter(p), now),
{
    lemma_filter_drops(t, p);
    lemma_filter_pairwise(t, p, different_clients());
    lemma_filter_pairwise(t, p, different_addresses(now));
}

/// Leaving leases out keeps a table in order.
proof fn lemma_filter_table_ok(
    config: DhcpServerConfig,
    t: Seq<LeaseView>,
    now: Instant,
    p: spec_fn(LeaseView) -> bool,
)
    requires
        table_ok(config, t, now),
    ensures
        table_ok(config, t.filter(p), now),
{
    lemma_filter_apart(t, now, p);
    let kept = t.filter(p);
    assert forall|k: int| 0 <= k < kept.len() implies config.pools((#[trigger] kept[k]).address)
        && (kept[k].state == DhcpServerLeaseState::Bound ==> kept[k].expires_at.micros <= now.micros
        + config.lease_duration.micros) by {
        lemma_filter_from(t, p, k);
        let i = choose|i: int| 0 <= i < t.len() && #[trigger] t[i] == kept[k];
        assert(config.pools(t[i].address));
    }
}

/// Removing the leases of an address keeps the table in order.
pub proof fn remove_keeps_table_ok(
    config: DhcpServerConfig,
    t: Seq<LeaseView>,
    now: Instant,
    address: Ipv4Address,
)
    requires
        table_ok(config, t, now),
    ensures
        table_ok(config, t.filter(|lease: LeaseView| lease.address != address), now),
{
    lemma_filter_table_ok(config, t, now, |lease: LeaseView| lease.address != address);
}

/// A lease is of the client it matches.
pub proof fn lemma_holder(lease: LeaseView, id: ClientIdView)
    ensures
        lease.matches(id) <==> holder(lease) == id,
{
}

/// The client of a message is identified by its own hardware address, or by a
/// nonempty identifier.
pub open spec fn identifies(id: ClientIdView, chaddr: EthernetAddress) -> bool {
    match id {
        ClientIdView::Id(bytes) => bytes.len() > 0,
        ClientIdView::Hw(addr) => addr == chaddr,
    }
}

/// What is known of the slot found for a client.
pub proof fn lemma_entry(t: Seq<LeaseView>, id: ClientIdView, chaddr: EthernetAddress, now: Instant)
    requires
        pairwise(t, different_clients()),
        t.len() <= DHCP_SERVER_LEASE_COUNT,
        identifies(id, chaddr),
        entry_for(t, id, chaddr, now) is Some,
    ensures
        ({
            let (table, i) = entry_for(t, id, chaddr, now)->0;
            &&& 0 <= i < table.len() <= DHCP_SERVER_LEASE_COUNT
            &&& holder(table[i]) == id
            &&& forall|j: int|
                0 <= j < table.len() && j != i ==> j < t.len() && #[trigger] table[j] == t[j] && (
                table[j].state != DhcpServerLeaseState::Declined ==> holder(table[j]) != id)
            &&& find_by_client(t, id) matches Some(k) ==> {
                &&& k == i
                &&& table[i] == (LeaseView { hardware_addr: chaddr, ..t[i] })
                &&& t[i].belongs_to(id)
            }
            &&& find_by_client(t, id) is None ==> table[i] == LeaseView::fresh(id, chaddr)
        }),
{
    let owned = |lease: LeaseView| lease.belongs_to(id);
    lemma_position(t, owned);
    let (table, i) = entry_for(t, id, chaddr, now)->0;
    match find_by_client(t, id) {
        Some(k) => {
            assert(owned(t[k]));
            lemma_holder(t[k], id);
            assert forall|j: int| 0 <= j < table.len() && j != i implies j < t.len()
                && #[trigger] table[j] == t[j] && (table[j].state != DhcpServerLeaseState::Declined
                ==> holder(table[j]) != id) by {
                if j < k {
                    assert(different_clients()(t[j], t[k]));
                } else {
                    assert(different_clients()(t[k], t[j]));
                }
            }
        },
        None => {
            assert forall|j: int|
                0 <= j < t.len() && (
                #[trigger] t[j]).state != DhcpServerLeaseState::Declined implies holder(t[j])
                != id by {
                assert(!owned(t[j]));
                lemma_holder(t[j], id);
            }
            if t.len() >= DHCP_SERVER_LEASE_COUNT {
                let found = choose|i: int| is_longest_expired(t, now, i);
                assert(is_longest_expired(t, now, found));
            }
        },
    }
}

/// Giving the slot of a client an address that is available for it keeps the leases
/// apart.
proof fn lemma_assign_apart(
    t: Seq<LeaseView>,
    id: ClientIdView,
    chaddr: EthernetAddress,
    now: Instant,
    lease: LeaseView,
)
    requires
        leases_apart(t, now),
        identifies(id, chaddr),
        entry_for(t, id, chaddr, now) is Some,
        holder(lease) == id,
        lease.state != DhcpServerLeaseState::Declined,
        available_for(t, lease.address, id, now),
    ensures
        ({
            let (table, i) = entry_for(t, id, chaddr, now)->0;
            leases_apart(table.update(i, lease), now)
        }),
{
    lemma_entry(t, id, chaddr, now);
    let (table, i) = entry_for(t, id, chaddr, now)->0;
    let new = table.update(i, lease);
    assert forall|j: int| 0 <= j < new.len() && j != i implies (#[trigger] new[j]) == t[j] && j
        < t.len() && (held(new[j], now) ==> new[j].address != lease.address) && (new[j].state
        != DhcpServerLeaseState::Declined ==> holder(new[j]) != id) by {
        assert(new[j] == table[j]);
        if held(t[j], now) && t[j].address == lease.address {
            assert(!t[j].withholds(lease.address, id, now));
            lemma_holder(t[j], id);
        }
    }
    assert forall|a: int, b: int| 0 <= a < b < new.len() implies different_clients()(
        #[trigger] new[a],
        #[trigger] new[b],
    ) && different_addresses(now)(new[a], new[b]) by {
        if a != i && b != i {
            assert(different_clients()(t[a], t[b]));
            assert(different_addresses(now)(t[a], t[b]));
        }
    }
}

/// Giving the slot of a client an address of the pool that is available for it keeps
/// the table in order.
proof fn lemma_assign_table_ok(
    config: DhcpServerConfig,
    t: Seq<LeaseView>,
    id: ClientIdView,
    chaddr: EthernetAddress,
    now: Instant,
    lease: LeaseView,
)
    requires
        table_ok(config, t, now),
        identifies(id, chaddr),
        entry_for(t, id, chaddr, now) is Some,
        holder(lease) == id,
        lease.state != DhcpServerLeaseState::Declined,
        available_for(t, lease.address, id, now),
        config.pools(lease.address),
        lease.state == DhcpServerLeaseState::Bound ==> lease.expires_at.micros <= now.micros
            + config.lease_duration.micros,
    ensures
        ({
            let (table, i) = entry_for(t, id, chaddr, now)->0;
            table_ok(config, table.update(i, lease), now)
        }),
{
    lemma_assign_apart(t, id, chaddr, now, lease);
    lemma_entry(t, id, chaddr, now);
    let (table, i) = entry_for(t, id, chaddr, now)->0;
    let new = table.update(i, lease);
    assert forall|j: int| 0 <= j < new.len() && j != i implies (#[trigger] new[j]) == t[j] && j
        < t.len() by {
        assert(new[j] == table[j]);
    }
}

/// Ending or declining a lease keeps the leases apart.
proof fn lemma_end_apart(
    t: Seq<LeaseView>,
    now: Instant,
    i: int,
    state: DhcpServerLeaseState,
    expires_at: Instant,
)
    requires
        leases_apart(t, now),
        0 <= i < t.len(),
        t[i].state != DhcpServerLeaseState::Declined,
        state == DhcpServerLeaseState::Released || state == DhcpServerLeaseState::Declined,
    ensures
        leases_apart(t.update(i, LeaseView { state, expires_at, ..t[i] }), now),
{
    let new = t.update(i, LeaseView { state, expires_at, ..t[i] });
    assert forall|a: int, b: int| 0 <= a < b < new.len() implies different_clients()(
        #[trigger] new[a],
        #[trigger] new[b],
    ) && different_addresses(now)(new[a], new[b]) by {
        assert(different_clients()(t[a], t[b]));
        assert(different_addresses(now)(t[a], t[b]));
    }
}

/// Ending or declining a lease keeps the table in order.
proof fn lemma_end_table_ok(
    config: DhcpServerConfig,
    t: Seq<LeaseView>,
    now: Instant,
    i: int,
    state: DhcpServerLeaseState,
    expires_at: Instant,
)
    requires
        table_ok(config, t, now),
        0 <= i < t.len(),
        t[i].state != DhcpServerLeaseState::Declined,
        state == DhcpServerLeaseState::Released || state == DhcpServerLeaseState::Declined,
    ensures
        table_ok(config, t.update(i, LeaseView { state, expires_at, ..t[i] }), now),
{
    lemma_end_apart(t, now, i, state, expires_at);
}

/// The client of a message is identified by what the message says.
pub proof fn lemma_client_identified(request: DhcpRequestView)
    ensures
        identifies(client_of(request), request.chaddr),
{
}

/// A picked address is usable.
proof fn lemma_pick_usable(
    config: DhcpServerConfig,
    t: Seq<LeaseView>,
    id: ClientIdView,
    requested: Option<Ipv4Address>,
    now: Instant,
    server_cidr: Ipv4Cidr,
)
    ensures
        pick_addr(config, t, id, requested, now, server_cidr) matches Some(addr) ==> usable(
            config,
            t,
            id,
            addr,
            now,
            server_cidr,
        ),
{
}

/// No lease runs longer than configured, nor shorter than the shortest one,
/// unless the configured one is.
pub proof fn granted_duration_is_bounded(config: DhcpServerConfig, requested: Option<Duration>)
    ensures
        granted_duration(config, requested).micros <= config.lease_duration.micros,
        granted_duration(config, requested).micros >= config.lease_duration.micros
            || granted_duration(config, requested).micros >= MIN_LEASE_DURATION * 1_000_000,
        requested is None ==> granted_duration(config, requested) == config.lease_duration,
{
}

/// The table once a message came in.
pub open spec fn heard(t: Seq<LeaseView>, request: DhcpRequestView) -> Seq<LeaseView> {
    noted(t, client_of(request), request.chaddr)
}

/// Noting where a message came from changes nothing but the hardware address of its
/// client's lease: every lease is still of the same client.
pub proof fn lemma_heard(config: DhcpServerConfig, t: Seq<LeaseView>, request: DhcpRequestView)
    ensures
        ({
            let n = heard(t, request);
            &&& n.len() == t.len()
            &&& forall|i: int|
                0 <= i < t.len() ==> #[trigger] n[i] == (LeaseView {
                    hardware_addr: n[i].hardware_addr,
                    ..t[i]
                })
            &&& forall|i: int|
                0 <= i < t.len() && t[i].state == DhcpServerLeaseState::Declined ==> #[trigger] n[i]
                    == t[i]
            &&& forall|i: int, id: ClientIdView|
                0 <= i < t.len() ==> (#[trigger] n[i].matches(id) <==> t[i].matches(id))
            &&& forall|id: ClientIdView| #[trigger] find_by_client(n, id) == find_by_client(t, id)
            &&& forall|addr: Ipv4Address, id: ClientIdView, now: Instant| #[trigger]
                available_for(n, addr, id, now) == available_for(t, addr, id, now)
            &&& forall|now: Instant| leases_apart(t, now) ==> #[trigger] leases_apart(n, now)
            &&& forall|now: Instant|
                table_ok(config, t, now) ==> #[trigger] table_ok(config, n, now)
            &&& find_by_client(t, client_of(request)) matches Some(i) ==> 0 <= i < t.len()
                && n[i].hardware_addr == request.chaddr
        }),
{
    let own = client_of(request);
    let n = heard(t, request);
    lemma_position(t, |lease: LeaseView| lease.belongs_to(own));
    assert forall|i: int, id: ClientIdView| 0 <= i < t.len() implies (#[trigger] n[i].matches(id)
        <==> t[i].matches(id)) by {}
    assert forall|id: ClientIdView| #[trigger] find_by_client(n, id) == find_by_client(t, id) by {
        let owned = |lease: LeaseView| lease.belongs_to(id);
        lemma_position(t, owned);
        assert forall|i: int| 0 <= i < t.len() implies owned(#[trigger] n[i]) == owned(t[i]) by {
            assert(n[i].matches(id) <==> t[i].matches(id));
        }
        match find_by_client(t, id) {
            Some(k) => {
                assert(owned(n[k]));
                assert forall|j: int| 0 <= j < k implies !owned(#[trigger] n[j]) by {
                    assert(!owned(t[j]));
                }
                lemma_position_is(n, owned, k);
            },
            None => {
                assert forall|j: int| 0 <= j < n.len() implies !owned(#[trigger] n[j]) by {
                    assert(!owned(t[j]));
                }
                lemma_position_none(n, owned);
            },
        }
    }
    assert forall|addr: Ipv4Address, id: ClientIdView, now: Instant| #[trigger]
        available_for(n, addr, id, now) == available_for(t, addr, id, now) by {
        assert forall|i: int| 0 <= i < t.len() implies #[trigger] n[i].withholds(addr, id, now)
            == t[i].withholds(addr, id, now) by {
            assert(n[i].matches(id) <==> t[i].matches(id));
        }
        if available_for(n, addr, id, now) {
            assert forall|i: int| 0 <= i < t.len() implies !(#[trigger] t[i]).withholds(
                addr,
                id,
                now,
            ) by {
                assert(!n[i].withholds(addr, id, now));
            }
        }
        if available_for(t, addr, id, now) {
            assert forall|i: int| 0 <= i < n.len() implies !(#[trigger] n[i]).withholds(
                addr,
                id,
                now,
            ) by {
                assert(!t[i].withholds(addr, id, now));
            }
        }
    }
    assert forall|now: Instant| leases_apart(t, now) implies #[trigger] leases_apart(n, now) by {
        assert forall|a: int, b: int| 0 <= a < b < n.len() implies different_clients()(
            #[trigger] n[a],
            #[trigger] n[b],
        ) && different_addresses(now)(n[a], n[b]) by {
            assert(different_clients()(t[a], t[b]));
            assert(different_addresses(now)(t[a], t[b]));
            lemma_holder(n[a], holder(n[b]));
            lemma_holder(t[a], holder(n[b]));
            lemma_holder(n[b], holder(n[b]));
            lemma_holder(t[b], holder(n[b]));
            assert(n[a].matches(holder(n[b])) <==> t[a].matches(holder(n[b])));
            assert(n[b].matches(holder(n[b])) <==> t[b].matches(holder(n[b])));
        }
    }
    assert forall|now: Instant| table_ok(config, t, now) implies #[trigger] table_ok(
        config,
        n,
        now,
    ) by {
        assert(leases_apart(n, now));
        assert forall|i: int| 0 <= i < n.len() implies config.pools((#[trigger] n[i]).address) && (
        n[i].state == DhcpServerLeaseState::Bound ==> n[i].expires_at.micros <= now.micros
            + config.lease_duration.micros) by {
            assert(config.pools(t[i].address));
        }
    }
}

/// Handling a message keeps the leases apart: no address is ever given to two clients,
/// no client has two leases that were not declined, and the table never outgrows its
/// capacity.
pub proof fn step_keeps_leases_apart(
    config: DhcpServerConfig,
    t: Seq<LeaseView>,
    now: Instant,
    server_cidr: Ipv4Cidr,
    message_type: DhcpMessageType,
    request: DhcpRequestView,
)
    requires
        leases_apart(t, now),
    ensures
        leases_apart(
            server_step(config, t, now, server_cidr, message_type, request).leases,
            now,
        ),
{
    lemma_heard(config, t, request);
    let t = heard(t, request);
    let id = client_of(request);
    lemma_client_identified(request);
    lemma_position(t, |lease: LeaseView| lease.belongs_to(id));
    match message_type {
        DhcpMessageType::Discover => {
            let requested = addr_in_option(request.requested_ip);
            lemma_pick_usable(config, t, id, requested, now, server_cidr);
            if let Some(addr) = pick_addr(config, t, id, requested, now, server_cidr) {
                if entry_for(t, id, request.chaddr, now) is Some {
                    lemma_entry(t, id, request.chaddr, now);
                    let (table, i) = entry_for(t, id, request.chaddr, now)->0;
                    lemma_assign_apart(
                        t,
                        id,
                        request.chaddr,
                        now,
                        offered_lease(table[i], addr, now),
                    );
                }
            }
        },
        DhcpMessageType::Request => {
            let server_id = addr_in_option(request.server_id);
            if server_id is Some && server_id->0 != server_cidr.address {
                if let Some(i) = find_by_client(t, id) {
                    lemma_end_apart(t, now, i, DhcpServerLeaseState::Released, now);
                }
            } else if let Some(addr) = claimed_addr(request) {
                if answer_to(config, t, now, server_cidr, request, addr) is Ack {
                    lemma_grant_apart(config, t, now, request, addr);
                }
            }
        },
        DhcpMessageType::Decline => {
            if let Some(i) = find_by_client(t, id) {
                lemma_end_apart(
                    t,
                    now,
                    i,
                    DhcpServerLeaseState::Declined,
                    now.plus(Duration::of_secs(DECLINE_TIMEOUT as int)),
                );
            }
        },
        DhcpMessageType::Release => {
            if let Some(i) = find_by_client(t, id) {
                lemma_end_apart(t, now, i, DhcpServerLeaseState::Released, now);
            }
        },
        _ => {},
    }
}

/// Offering an address keeps the table in order.
proof fn lemma_discover_table_ok(
    config: DhcpServerConfig,
    t: Seq<LeaseView>,
    now: Instant,
    server_cidr: Ipv4Cidr,
    request: DhcpRequestView,
)
    requires
        table_ok(config, t, now),
    ensures
        table_ok(config, discover(config, t, now, server_cidr, request).leases, now),
{
    lemma_heard(config, t, request);
    let t = heard(t, request);
    let id = client_of(request);
    let requested = addr_in_option(request.requested_ip);
    lemma_client_identified(request);
    lemma_pick_usable(config, t, id, requested, now, server_cidr);
    if let Some(addr) = pick_addr(config, t, id, requested, now, server_cidr) {
        if entry_for(t, id, request.chaddr, now) is Some {
            lemma_entry(t, id, request.chaddr, now);
            let (table, i) = entry_for(t, id, request.chaddr, now)->0;
            lemma_assign_table_ok(
                config,
                t,
                id,
                request.chaddr,
                now,
                offered_lease(table[i], addr, now),
            );
        }
    }
}

/// Handling a message keeps the lease table in order.
pub proof fn step_keeps_table_ok(
    config: DhcpServerConfig,
    t: Seq<LeaseView>,
    now: Instant,
    server_cidr: Ipv4Cidr,
    message_type: DhcpMessageType,
    request: DhcpRequestView,
)
    requires
        table_ok(config, t, now),
        ends_in_time(config, t, now, server_cidr, message_type, request),
    ensures
        table_ok(
            config,
            server_step(config, t, now, server_cidr, message_type, request).leases,
            now,
        ),
{
    let before = t;
    lemma_heard(config, t, request);
    let t = heard(t, request);
    let id = client_of(request);
    lemma_position(t, |lease: LeaseView| lease.belongs_to(id));
    match message_type {
        DhcpMessageType::Discover => {
            lemma_discover_table_ok(config, before, now, server_cidr, request);
        },
        DhcpMessageType::Request => {
            let server_id = addr_in_option(request.server_id);
            if server_id is Some && server_id->0 != server_cidr.address {
                if let Some(i) = find_by_client(t, id) {
                    lemma_end_table_ok(config, t, now, i, DhcpServerLeaseState::Released, now);
                }
            } else if let Some(addr) = claimed_addr(request) {
                if answer_to(config, t, now, server_cidr, request, addr) is Ack {
                    lemma_ack_pooled(config, t, now, server_cidr, request, addr);
                    lemma_grant_table_ok(config, t, now, request, addr);
                }
            }
        },
        DhcpMessageType::Decline => {
            if let Some(i) = find_by_client(t, id) {
                lemma_end_table_ok(
                    config,
                    t,
                    now,
                    i,
                    DhcpServerLeaseState::Declined,
                    now.plus(Duration::of_secs(DECLINE_TIMEOUT as int)),
                );
            }
        },
        DhcpMessageType::Release => {
            if let Some(i) = find_by_client(t, id) {
                lemma_end_table_ok(config, t, now, i, DhcpServerLeaseState::Released, now);
            }
        },
        _ => {},
    }
}

/// An acknowledged address is from the pool, can be leased, and is available for
/// the client.
proof fn lemma_ack_pooled(
    config: DhcpServerConfig,
    t: Seq<LeaseView>,
    now: Instant,
    server_cidr: Ipv4Cidr,
    request: DhcpRequestView,
    addr: Ipv4Address,
)
    requires
        table_ok(config, t, now),
        answer_to(config, t, now, server_cidr, request, addr) is Ack,
    ensures
        config.pools(addr),
        leasable(addr, server_cidr),
        available_for(t, addr, client_of(request), now),
{
    let id = client_of(request);
    lemma_position(t, |lease: LeaseView| lease.belongs_to(id));
    if let Some(i) = find_by_client(t, id) {
        assert(config.pools(t[i].address));
    }
}

/// An address that is available for a client still is when records are dropped.
pub proof fn lemma_filter_available(
    t: Seq<LeaseView>,
    p: spec_fn(LeaseView) -> bool,
    addr: Ipv4Address,
    id: ClientIdView,
    now: Instant,
)
    requires
        available_for(t, addr, id, now),
    ensures
        available_for(t.filter(p), addr, id, now),
{
    let kept = t.filter(p);
    assert forall|k: int| 0 <= k < kept.len() implies !(#[trigger] kept[k]).withholds(
        addr,
        id,
        now,
    ) by {
        lemma_filter_from(t, p, k);
        let i = choose|i: int| 0 <= i < t.len() && #[trigger] t[i] == kept[k];
        assert(!t[i].withholds(addr, id, now));
    }
}

/// Committing an available address keeps the leases apart.
proof fn lemma_grant_apart(
    config: DhcpServerConfig,
    t: Seq<LeaseView>,
    now: Instant,
    request: DhcpRequestView,
    addr: Ipv4Address,
)
    requires
        leases_apart(t, now),
        available_for(t, addr, client_of(request), now),
    ensures
        leases_apart(grant(config, t, now, request, addr).leases, now),
{
    let id = client_of(request);
    let keep = |lease: LeaseView| lease.outlives(addr, Some(id));
    let kept = t.filter(keep);
    lemma_client_identified(request);
    lemma_filter_apart(t, now, keep);
    lemma_filter_available(t, keep, addr, id, now);
    if entry_for(kept, id, request.chaddr, now) is Some {
        lemma_entry(kept, id, request.chaddr, now);
        let (table, i) = entry_for(kept, id, request.chaddr, now)->0;
        lemma_assign_apart(
            kept,
            id,
            request.chaddr,
            now,
            LeaseView {
                address: addr,
                state: DhcpServerLeaseState::Bound,
                expires_at: now.plus(granted_duration(config, requested_duration(request))),
                ..table[i]
            },
        );
    }
}

/// Committing an available address of the pool keeps the table in order.
proof fn lemma_grant_table_ok(
    config: DhcpServerConfig,
    t: Seq<LeaseView>,
    now: Instant,
    request: DhcpRequestView,
    addr: Ipv4Address,
)
    requires
        table_ok(config, t, now),
        config.pools(addr),
        available_for(t, addr, client_of(request), now),
        grant(config, t, now, request, addr).reply matches Some(reply) ==> (
        reply.lease_duration matches Some(duration) ==> now.can_add(duration)),
    ensures
        table_ok(config, grant(config, t, now, request, addr).leases, now),
{
    let id = client_of(request);
    let keep = |lease: LeaseView| lease.outlives(addr, Some(id));
    let kept = t.filter(keep);
    lemma_client_identified(request);
    lemma_filter_table_ok(config, t, now, keep);
    lemma_filter_available(t, keep, addr, id, now);
    granted_duration_is_bounded(config, requested_duration(request));
    if entry_for(kept, id, request.chaddr, now) is Some {
        lemma_entry(kept, id, request.chaddr, now);
        let (table, i) = entry_for(kept, id, request.chaddr, now)->0;
        lemma_assign_table_ok(
            config,
            kept,
            id,
            request.chaddr,
            now,
            LeaseView {
                address: addr,
                state: DhcpServerLeaseState::Bound,
                expires_at: now.plus(granted_duration(config, requested_duration(request))),
                ..table[i]
            },
        );
    }
}

/// Where every client has at most one lease, the one that belongs to a client is
/// the one that is found.
pub proof fn lemma_find_is(t: Seq<LeaseView>, id: ClientIdView, i: int)
    requires
        pairwise(t, different_clients()),
        0 <= i < t.len(),
        t[i].belongs_to(id),
    ensures
        find_by_client(t, id) == Some(i),
{
    let owned = |lease: LeaseView| lease.belongs_to(id);
    lemma_holder(t[i], id);
    assert forall|j: int| 0 <= j < i implies !owned(#[trigger] t[j]) by {
        lemma_holder(t[j], id);
        assert(different_clients()(t[j], t[i]));
    }
    lemma_position_is(t, owned, i);
}

/// An address that was available for a client still is later, as long as nothing
/// else happened.
proof fn lemma_stays_available(
    t: Seq<LeaseView>,
    addr: Ipv4Address,
    id: ClientIdView,
    now: Instant,
    later: Instant,
)
    requires
        available_for(t, addr, id, now),
        now.micros <= later.micros,
    ensures
        available_for(t, addr, id, later),
{
    assert forall|i: int| 0 <= i < t.len() implies !(#[trigger] t[i]).withholds(
        addr,
        id,
        later,
    ) by {
        assert(!t[i].withholds(addr, id, now));
    }
}

/// Every address handed out with a lease is from the pool, can be leased in the
/// served subnet, and is held by nobody else. No lease is longer than configured.
pub proof fn handed_out_addresses_are_good(
    config: DhcpServerConfig,
    t: Seq<LeaseView>,
    now: Instant,
    server_cidr: Ipv4Cidr,
    message_type: DhcpMessageType,
    request: DhcpRequestView,
)
    requires
        table_ok(config, t, now),
    ensures
        server_step(config, t, now, server_cidr, message_type, request).reply matches Some(reply)
            ==> (reply.lease_duration matches Some(duration) ==> {
            &&& config.pools(reply.yiaddr)
            &&& leasable(reply.yiaddr, server_cidr)
            &&& available_for(t, reply.yiaddr, client_of(request), now)
            &&& duration.micros <= config.lease_duration.micros
        }),
{
    lemma_heard(config, t, request);
    let t = heard(t, request);
    let id = client_of(request);
    lemma_position(t, |lease: LeaseView| lease.belongs_to(id));
    match message_type {
        DhcpMessageType::Discover => {
            let requested = addr_in_option(request.requested_ip);
            lemma_pick_usable(config, t, id, requested, now, server_cidr);
            granted_duration_is_bounded(config, requested_duration(request));
        },
        DhcpMessageType::Request => {
            if let Some(addr) = claimed_addr(request) {
                if answer_to(config, t, now, server_cidr, request, addr) is Ack {
                    lemma_ack_pooled(config, t, now, server_cidr, request, addr);
                    granted_duration_is_bounded(config, requested_duration(request));
                }
            }
        },
        _ => {},
    }
}

/// A declined address is not handed out to anyone while its hold lasts.
pub proof fn declined_address_is_not_handed_out(
    config: DhcpServerConfig,
    t: Seq<LeaseView>,
    now: Instant,
    server_cidr: Ipv4Cidr,
    message_type: DhcpMessageType,
    request: DhcpRequestView,
    declined: int,
)
    requires
        table_ok(config, t, now),
        0 <= declined < t.len(),
        t[declined].state == DhcpServerLeaseState::Declined,
        t[declined].active(now),
    ensures
        server_step(config, t, now, server_cidr, message_type, request).reply matches Some(reply)
            ==> (reply.lease_duration is Some ==> reply.yiaddr != t[declined].address),
{
    handed_out_addresses_are_good(config, t, now, server_cidr, message_type, request);
    let step = server_step(config, t, now, server_cidr, message_type, request);
    if step.reply is Some && step.reply->0.lease_duration is Some {
        assert(!t[declined].withholds(step.reply->0.yiaddr, client_of(request), now));
    }
}

/// No message ends the hold of a declined address early.
pub proof fn hold_of_declined_address_lasts(
    config: DhcpServerConfig,
    t: Seq<LeaseView>,
    now: Instant,
    server_cidr: Ipv4Cidr,
    message_type: DhcpMessageType,
    request: DhcpRequestView,
    declined: int,
)
    requires
        table_ok(config, t, now),
        0 <= declined < t.len(),
        t[declined].state == DhcpServerLeaseState::Declined,
        t[declined].active(now),
    ensures
        server_step(config, t, now, server_cidr, message_type, request).leases.contains(
            t[declined],
        ),
{
    let step = server_step(config, t, now, server_cidr, message_type, request);
    lemma_heard(config, t, request);
    let t = heard(t, request);
    let id = client_of(request);
    lemma_client_identified(request);
    lemma_position(t, |lease: LeaseView| lease.belongs_to(id));
    let hold = t[declined];
    match message_type {
        DhcpMessageType::Discover => {
            if pick_addr(
                config,
                t,
                id,
                addr_in_option(request.requested_ip),
                now,
                server_cidr,
            ) is Some && entry_for(t, id, request.chaddr, now) is Some {
                lemma_entry_keeps_hold(t, id, request.chaddr, now, declined);
                assert(step.leases[declined] == hold);
            } else {
                assert(step.leases[declined] == hold);
            }
        },
        DhcpMessageType::Request => {
            let server_id = addr_in_option(request.server_id);
            let other = server_id is Some && server_id->0 != server_cidr.address;
            if !other && claimed_addr(request) is Some && answer_to(
                config,
                t,
                now,
                server_cidr,
                request,
                claimed_addr(request)->0,
            ) is Ack {
                let addr = claimed_addr(request)->0;
                lemma_ack_pooled(config, t, now, server_cidr, request, addr);
                assert(!hold.withholds(addr, id, now));
                let keep = |lease: LeaseView| lease.outlives(addr, Some(id));
                let kept = t.filter(keep);
                lemma_filter_keeps(t, keep, declined);
                let k = choose|k: int| 0 <= k < kept.len() && #[trigger] kept[k] == hold;
                lemma_filter_table_ok(config, t, now, keep);
                if entry_for(kept, id, request.chaddr, now) is Some {
                    lemma_entry_keeps_hold(kept, id, request.chaddr, now, k);
                }
                assert(step.leases[k] == hold);
            } else {
                assert(step.leases[declined] == hold);
            }
        },
        _ => {
            assert(step.leases[declined] == hold);
        },
    }
}

/// The slot found for a client is never the hold of a declined address.
proof fn lemma_entry_keeps_hold(
    t: Seq<LeaseView>,
    id: ClientIdView,
    chaddr: EthernetAddress,
    now: Instant,
    declined: int,
)
    requires
        pairwise(t, different_clients()),
        t.len() <= DHCP_SERVER_LEASE_COUNT,
        identifies(id, chaddr),
        entry_for(t, id, chaddr, now) is Some,
        0 <= declined < t.len(),
        t[declined].state == DhcpServerLeaseState::Declined,
        t[declined].active(now),
    ensures
        ({
            let (table, i) = entry_for(t, id, chaddr, now)->0;
            i != declined && declined < table.len() && table[declined] == t[declined]
        }),
{
    lemma_entry(t, id, chaddr, now);
    lemma_position(t, |lease: LeaseView| lease.belongs_to(id));
    if find_by_client(t, id) is None && t.len() >= DHCP_SERVER_LEASE_COUNT {
        let found = choose|i: int| is_longest_expired(t, now, i);
        assert(is_longest_expired(t, now, found));
        assert(!t[found].active(now));
    }
}

/// A client that declines its address makes the server hold the address back for
/// the whole decline time.
pub proof fn decline_holds_the_address(
    config: DhcpServerConfig,
    t: Seq<LeaseView>,
    now: Instant,
    request: DhcpRequestView,
    own: int,
)
    requires
        table_ok(config, t, now),
        now.can_add(Duration::of_secs(DECLINE_TIMEOUT as int)),
        find_by_client(t, client_of(request)) == Some(own),
        addr_in_option(request.requested_ip) == Some(t[own].address),
    ensures
        ({
            let after = decline(t, now, request);
            &&& after[own].state == DhcpServerLeaseState::Declined
            &&& after[own].address == t[own].address
            &&& after[own].expires_at.micros == now.micros + DECLINE_TIMEOUT * 1_000_000
            &&& find_by_client(after, client_of(request)) is None
        }),
{
    let after = decline(t, now, request);
    lemma_heard(config, t, request);
    let t = heard(t, request);
    let id = client_of(request);
    let owned = |lease: LeaseView| lease.belongs_to(id);
    lemma_position(t, owned);
    lemma_holder(t[own], id);
    assert forall|j: int| 0 <= j < after.len() implies !owned(#[trigger] after[j]) by {
        lemma_holder(t[j], id);
        if j < own {
            assert(different_clients()(t[j], t[own]));
        } else if own < j {
            assert(different_clients()(t[own], t[j]));
        }
    }
    lemma_position_none(after, owned);
}

/// What an offer leaves in the table: the client's one lease is for the offered
/// address.
proof fn lemma_offer_recorded(
    config: DhcpServerConfig,
    t: Seq<LeaseView>,
    now: Instant,
    server_cidr: Ipv4Cidr,
    request: DhcpRequestView,
)
    requires
        table_ok(config, t, now),
        discover(config, t, now, server_cidr, request).reply is Some,
    ensures
        ({
            let step = discover(config, t, now, server_cidr, request);
            let id = client_of(request);
            let addr = step.reply->0.yiaddr;
            &&& find_by_client(step.leases, id) matches Some(i) && 0 <= i < step.leases.len()
                && step.leases[i].address == addr && step.leases[i].belongs_to(id)
            &&& usable(config, t, id, addr, now, server_cidr)
            &&& available_for(step.leases, addr, id, now)
            &&& table_ok(config, step.leases, now)
        }),
{
    let id = client_of(request);
    let requested = addr_in_option(request.requested_ip);
    lemma_client_identified(request);
    lemma_discover_table_ok(config, t, now, server_cidr, request);
    let step = discover(config, t, now, server_cidr, request);
    lemma_heard(config, t, request);
    let t = heard(t, request);
    lemma_pick_usable(config, t, id, requested, now, server_cidr);
    lemma_entry(t, id, request.chaddr, now);
    let addr = step.reply->0.yiaddr;
    let (table, i) = entry_for(t, id, request.chaddr, now)->0;
    lemma_holder(step.leases[i], id);
    lemma_find_is(step.leases, id, i);
    assert forall|j: int| 0 <= j < step.leases.len() implies !(
    #[trigger] step.leases[j]).withholds(addr, id, now) by {
        if j != i {
            assert(table[j] == t[j]);
            assert(!t[j].withholds(addr, id, now));
        }
    }
}

/// A client that was offered an address and then selects it gets it.
pub proof fn offer_is_honored(
    config: DhcpServerConfig,
    t: Seq<LeaseView>,
    now: Instant,
    later: Instant,
    server_cidr: Ipv4Cidr,
    asked: DhcpRequestView,
    selected: DhcpRequestView,
)
    requires
        table_ok(config, t, now),
        now.micros <= later.micros,
        discover(config, t, now, server_cidr, asked).reply is Some,
        client_of(selected) == client_of(asked),
        addr_in_option(selected.server_id) == Some(server_cidr.address),
        addr_in_option(selected.requested_ip) == Some(
            discover(config, t, now, server_cidr, asked).reply->0.yiaddr,
        ),
    ensures
        ({
            let offer = discover(config, t, now, server_cidr, asked);
            let step = request_step(config, offer.leases, later, server_cidr, selected);
            &&& step.reply is Some
            &&& step.reply->0.message_type == DhcpMessageType::Ack
            &&& step.reply->0.yiaddr == offer.reply->0.yiaddr
            &&& exists|i: int|
                0 <= i < step.leases.len() && (#[trigger] step.leases[i]).belongs_to(
                    client_of(selected),
                ) && step.leases[i].state == DhcpServerLeaseState::Bound && step.leases[i].address
                    == offer.reply->0.yiaddr
        }),
{
    let id = client_of(asked);
    lemma_offer_recorded(config, t, now, server_cidr, asked);
    let offer = discover(config, t, now, server_cidr, asked);
    let addr = offer.reply->0.yiaddr;
    lemma_stays_available(offer.leases, addr, id, now, later);
    time_keeps_table_ok(config, offer.leases, now, later);
    lemma_heard(config, offer.leases, selected);
    let known = heard(offer.leases, selected);
    lemma_own_address_is_granted(config, known, later, selected, addr);
}

/// Committing to a client the address its lease is for always works.
proof fn lemma_own_address_is_granted(
    config: DhcpServerConfig,
    t: Seq<LeaseView>,
    now: Instant,
    request: DhcpRequestView,
    addr: Ipv4Address,
)
    requires
        table_ok(config, t, now),
        find_by_client(t, client_of(request)) matches Some(i) && t[i].address == addr,
    ensures
        ({
            let step = grant(config, t, now, request, addr);
            &&& step.reply is Some
            &&& step.reply->0.message_type == DhcpMessageType::Ack
            &&& step.reply->0.yiaddr == addr
            &&& exists|i: int|
                0 <= i < step.leases.len() && (#[trigger] step.leases[i]).belongs_to(
                    client_of(request),
                ) && step.leases[i].state == DhcpServerLeaseState::Bound && step.leases[i].address
                    == addr
        }),
{
    let id = client_of(request);
    let owned = |lease: LeaseView| lease.belongs_to(id);
    let keep = |lease: LeaseView| lease.outlives(addr, Some(id));
    let kept = t.filter(keep);
    lemma_client_identified(request);
    lemma_position(t, owned);
    let i = find_by_client(t, id)->0;
    lemma_filter_keeps(t, keep, i);
    let k = choose|k: int| 0 <= k < kept.len() && #[trigger] kept[k] == t[i];
    lemma_filter_table_ok(config, t, now, keep);
    lemma_find_is(kept, id, k);
    lemma_entry(kept, id, request.chaddr, now);
    let step = grant(config, t, now, request, addr);
    lemma_holder(step.leases[k], id);
    assert(step.leases[k].belongs_to(id));
}

/// A client that comes back is offered the address it has or had, as long as that
/// is free, in the pool and on the subnet.
pub proof fn returning_client_gets_its_address(
    config: DhcpServerConfig,
    t: Seq<LeaseView>,
    now: Instant,
    server_cidr: Ipv4Cidr,
    request: DhcpRequestView,
    own: int,
)
    requires
        find_by_client(t, client_of(request)) == Some(own),
        usable(config, t, client_of(request), t[own].address, now, server_cidr),
    ensures
        discover(config, t, now, server_cidr, request).reply matches Some(reply) && reply.yiaddr
            == t[own].address,
{
    lemma_heard(config, t, request);
    let t = heard(t, request);
}

/// Asking again does not shorten the running lease of a client: it keeps its
/// address, its state and its end.
pub proof fn running_lease_is_not_shortened(
    config: DhcpServerConfig,
    t: Seq<LeaseView>,
    now: Instant,
    server_cidr: Ipv4Cidr,
    request: DhcpRequestView,
    own: int,
)
    requires
        table_ok(config, t, now),
        find_by_client(t, client_of(request)) == Some(own),
        is_running(t[own], t[own].address, now),
        usable(config, t, client_of(request), t[own].address, now, server_cidr),
    ensures
        discover(config, t, now, server_cidr, request).leases == t.update(
            own,
            LeaseView { hardware_addr: request.chaddr, ..t[own] },
        ),
{
    lemma_heard(config, t, request);
    let t = heard(t, request);
    lemma_position(t, |lease: LeaseView| lease.belongs_to(client_of(request)));
    let new = LeaseView { hardware_addr: request.chaddr, ..t[own] };
    assert(t.update(own, new).update(own, new) =~= t.update(own, new));
}

/// A client renews its running lease: asked for with ciaddr, the address is
/// acknowledged, unless it is also held back because someone declined it.
pub proof fn running_lease_is_renewed(
    config: DhcpServerConfig,
    t: Seq<LeaseView>,
    now: Instant,
    server_cidr: Ipv4Cidr,
    request: DhcpRequestView,
    own: int,
)
    requires
        table_ok(config, t, now),
        find_by_client(t, client_of(request)) == Some(own),
        is_running(t[own], request.ciaddr, now),
        leasable(request.ciaddr, server_cidr),
        addr_in_option(request.server_id) is None,
        addr_in_option(request.requested_ip) is None,
        forall|i: int|
            0 <= i < t.len() && (#[trigger] t[i]).state == DhcpServerLeaseState::Declined
                && t[i].active(now) ==> t[i].address != request.ciaddr,
    ensures
        request_step(config, t, now, server_cidr, request).reply matches Some(reply)
            && reply.message_type == DhcpMessageType::Ack && reply.yiaddr == request.ciaddr
            && reply.lease_duration == Some(granted_duration(config, requested_duration(request))),
{
    lemma_heard(config, t, request);
    let t = heard(t, request);
    let id = client_of(request);
    lemma_position(t, |lease: LeaseView| lease.belongs_to(id));
    assert forall|i: int| 0 <= i < t.len() implies !(#[trigger] t[i]).withholds(
        request.ciaddr,
        id,
        now,
    ) by {
        if i < own {
            assert(different_addresses(now)(t[i], t[own]));
        } else if own < i {
            assert(different_addresses(now)(t[own], t[i]));
        }
    }
    lemma_own_address_is_granted(config, t, now, request, request.ciaddr);
}

/// A released address is free for every other client, unless it is held back
/// because someone declined it.
pub proof fn released_address_is_free(
    config: DhcpServerConfig,
    t: Seq<LeaseView>,
    now: Instant,
    later: Instant,
    request: DhcpRequestView,
    own: int,
    other: ClientIdView,
)
    requires
        table_ok(config, t, now),
        now.micros <= later.micros,
        find_by_client(t, client_of(request)) == Some(own),
        t[own].address == request.ciaddr,
        t[own].active(now),
        forall|i: int|
            0 <= i < t.len() && (#[trigger] t[i]).state == DhcpServerLeaseState::Declined
                && t[i].active(now) ==> t[i].address != request.ciaddr,
    ensures
        available_for(release(t, now, request), request.ciaddr, other, later),
{
    let after = release(t, now, request);
    lemma_heard(config, t, request);
    let t = heard(t, request);
    lemma_position(t, |lease: LeaseView| lease.belongs_to(client_of(request)));
    assert forall|i: int| 0 <= i < after.len() implies !(#[trigger] after[i]).withholds(
        request.ciaddr,
        other,
        later,
    ) by {
        if i < own {
            assert(different_addresses(now)(t[i], t[own]));
        } else if own < i {
            assert(different_addresses(now)(t[own], t[i]));
        }
    }
}

/// A client that chose another server leaves no lease running here.
pub proof fn choosing_another_server_ends_the_lease(
    config: DhcpServerConfig,
    t: Seq<LeaseView>,
    now: Instant,
    server_cidr: Ipv4Cidr,
    request: DhcpRequestView,
)
    requires
        table_ok(config, t, now),
        addr_in_option(request.server_id) matches Some(server) && server != server_cidr.address,
    ensures
        request_step(config, t, now, server_cidr, request).reply is None,
        ({
            let after = request_step(config, t, now, server_cidr, request).leases;
            forall|i: int|
                0 <= i < after.len() ==> !((#[trigger] after[i]).belongs_to(client_of(request))
                    && after[i].active(now))
        }),
{
    let after = request_step(config, t, now, server_cidr, request).leases;
    lemma_heard(config, t, request);
    let t = heard(t, request);
    let id = client_of(request);
    let owned = |lease: LeaseView| lease.belongs_to(id);
    lemma_position(t, owned);
    assert forall|i: int| 0 <= i < after.len() implies !((#[trigger] after[i]).belongs_to(id)
        && after[i].active(now)) by {
        lemma_holder(t[i], id);
        match find_by_client(t, id) {
            Some(k) => {
                lemma_holder(t[k], id);
                if i < k {
                    assert(different_clients()(t[i], t[k]));
                } else if k < i {
                    assert(different_clients()(t[k], t[i]));
                }
            },
            None => {
                assert(!owned(t[i]));
            },
        }
    }
}

/// Whether the server acts on messages of this type.
pub open spec fn is_acted_on(message_type: DhcpMessageType) -> bool {
    message_type == DhcpMessageType::Discover || message_type == DhcpMessageType::Request
        || message_type == DhcpMessageType::Decline || message_type == DhcpMessageType::Release
        || message_type == DhcpMessageType::Inform
}

/// The lease of a client shows the hardware address its latest message came from,
/// whatever the message asked for and whether or not it was granted. Unless the message
/// is a REQUEST, which may drop records, that goes for the lease the client had before
/// as well, declined now or not.
pub proof fn lease_shows_the_latest_hardware_address(
    config: DhcpServerConfig,
    t: Seq<LeaseView>,
    now: Instant,
    server_cidr: Ipv4Cidr,
    message_type: DhcpMessageType,
    request: DhcpRequestView,
)
    requires
        table_ok(config, t, now),
        is_acted_on(message_type),
    ensures
        ({
            let after = server_step(config, t, now, server_cidr, message_type, request).leases;
            &&& forall|i: int|
                0 <= i < after.len() && (#[trigger] after[i]).belongs_to(client_of(request))
                    ==> after[i].hardware_addr == request.chaddr
            &&& message_type != DhcpMessageType::Request ==> (find_by_client(
                t,
                client_of(request),
            ) matches Some(i) ==> after[i].hardware_addr == request.chaddr)
        }),
{
    let id = client_of(request);
    let after = server_step(config, t, now, server_cidr, message_type, request).leases;
    lemma_client_identified(request);
    lemma_heard(config, t, request);
    let known = heard(t, request);
    let owned = |lease: LeaseView| lease.belongs_to(id);
    lemma_position(known, owned);
    assert forall|i: int|
        0 <= i < known.len() && (#[trigger] known[i]).belongs_to(id) implies known[i].hardware_addr
        == request.chaddr by {
        lemma_find_is(known, id, i);
    }
    if message_type == DhcpMessageType::Discover {
        if entry_for(known, id, request.chaddr, now) is Some {
            lemma_entry(known, id, request.chaddr, now);
            let (table, k) = entry_for(known, id, request.chaddr, now)->0;
            assert forall|i: int| 0 <= i < table.len() && i != k implies !(
            #[trigger] table[i]).belongs_to(id) by {
                lemma_holder(table[i], id);
            }
        }
    }
    if message_type == DhcpMessageType::Request && claimed_addr(request) is Some {
        let addr = claimed_addr(request)->0;
        let keep = |lease: LeaseView| lease.outlives(addr, Some(id));
        let kept = known.filter(keep);
        lemma_filter_table_ok(config, known, now, keep);
        assert forall|i: int|
            0 <= i < kept.len() && (#[trigger] kept[i]).belongs_to(
                id,
            ) implies kept[i].hardware_addr == request.chaddr by {
            lemma_filter_from(known, keep, i);
            let j = choose|j: int| 0 <= j < known.len() && #[trigger] known[j] == kept[i];
            assert(known[j].belongs_to(id));
        }
        if entry_for(kept, id, request.chaddr, now) is Some {
            lemma_entry(kept, id, request.chaddr, now);
            let (table, k) = entry_for(kept, id, request.chaddr, now)->0;
            assert forall|i: int| 0 <= i < table.len() && i != k implies !(
            #[trigger] table[i]).belongs_to(id) by {
                lemma_holder(table[i], id);
            }
        }
    }
}

} // verus!

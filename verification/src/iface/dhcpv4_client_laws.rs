//! What a client of the DHCPv4 server gets.

use super::dhcpv4_laws::{
    heard, leases_apart, lemma_client_identified, lemma_entry, lemma_filter_apart,
    lemma_find_is, lemma_heard,
};
use super::dhcpv4_leases::{
    available_for, find_by_client, is_longest_expired, lemma_longest_expired, longest_expired,
    ClientIdView, DhcpServerLeaseState, LeaseView,
};
use super::dhcpv4_server::{
    addr_in_option, answer_to, claimed_addr, client_of, destination, discover, entry_for, grant,
    granted_duration, is_first_usable, leasable, request_step, requested_duration, server_step,
    usable, Answer, DhcpServerConfig, Reply,
};
use crate::config::{DHCP_SERVER_CLIENT_ID_SIZE, DHCP_SERVER_LEASE_COUNT};
use crate::lists::{lemma_filter_from, lemma_filter_keeps, lemma_position};
use crate::time::{Duration, Instant};
use crate::wire::dhcpv4::{DhcpMessageType, DhcpRequestView};
use crate::wire::subnet_laws::{
    first_bits_agree_v4, special_addresses_of_a_subnet, subnet_is_its_prefix,
};
use crate::wire::{EthernetAddress, IpAddress, IpCidr, Ipv4Address, Ipv4Cidr};
use vstd::arithmetic::power2::pow2;
use vstd::prelude::*;

verus! {

/// Whether a lease was made for a client: the one with its client identifier, or, if the
/// lease has none, with its hardware address.
pub open spec fn is_for_client(lease: LeaseView, id: ClientIdView) -> bool {
    match id {
        ClientIdView::Id(bytes) => lease.client_id is Some && lease.client_id->0 == bytes,
        ClientIdView::Hw(addr) => lease.client_id is None && lease.hardware_addr == addr,
    }
}

/// Whether a lease occupies its address: it was not released, and its end is to come.
pub open spec fn occupies(lease: LeaseView, now: Instant) -> bool {
    now.micros < lease.expires_at.micros && (lease.state == DhcpServerLeaseState::Offered
        || lease.state == DhcpServerLeaseState::Bound || lease.state
        == DhcpServerLeaseState::Declined)
}

/// A lease occupies its address until its end, unless it was released. It keeps the address
/// from every client but its own, and a declined one from that too. A declined one is
/// nobody's. Dropping the records of an address spares those of one client.
pub proof fn lease_keeps_its_address(
    lease: LeaseView,
    addr: Ipv4Address,
    id: ClientIdView,
    now: Instant,
)
    ensures
        lease.matches(id) <==> is_for_client(lease, id),
        lease.active(now) <==> occupies(lease, now),
        lease.belongs_to(id) <==> is_for_client(lease, id) && lease.state
            != DhcpServerLeaseState::Declined,
        lease.withholds(addr, id, now) <==> lease.address.bits == addr.bits && occupies(lease, now)
            && !(is_for_client(lease, id) && lease.state != DhcpServerLeaseState::Declined),
        lease.outlives(addr, Some(id)) <==> lease.address.bits != addr.bits || is_for_client(
            lease,
            id,
        ),
        lease.outlives(addr, None) <==> lease.address.bits != addr.bits,
{
}

/// A client is told by the identifier it sends, of 1 to 32 bytes, and else by its hardware
/// address.
pub proof fn client_is_told_by_its_identifier(request: DhcpRequestView)
    ensures
        match client_of(request) {
            ClientIdView::Id(bytes) => request.client_id == Some(bytes) && 1 <= bytes.len() <= 32,
            ClientIdView::Hw(addr) => addr == request.chaddr && (request.client_id matches Some(bytes)
                ==> bytes.len() == 0 || bytes.len() > 32),
        },
        DHCP_SERVER_CLIENT_ID_SIZE == 32,
{
}

/// An address in an option is its first four bytes, and a lease time in one is its only four
/// bytes, in seconds, the most significant first.
pub proof fn values_in_options(data: Seq<u8>, request: DhcpRequestView)
    ensures
        addr_in_option(None) is None,
        data.len() < 4 ==> addr_in_option(Some(data)) is None,
        data.len() >= 4 ==> (addr_in_option(Some(data)) matches Some(addr) && addr.bits == data[0]
            * 0x100_0000 + data[1] * 0x1_0000 + data[2] * 0x100 + data[3]),
        request.lease_time is None ==> requested_duration(request) is None,
        request.lease_time == Some(data) && data.len() != 4 ==> requested_duration(request) is None,
        request.lease_time == Some(data) && data.len() == 4 ==> (requested_duration(
            request,
        ) matches Some(duration) && duration.micros == (data[0] * 0x100_0000 + data[1] * 0x1_0000
            + data[2] * 0x100 + data[3]) * 1_000_000),
{
}

/// An address can be leased if and only if it is a unicast address of the server's subnet,
/// not the server's own, and its bits behind the prefix are not all clear, nor all set where
/// there is more than one.
pub proof fn leasable_addresses(addr: Ipv4Address, server_cidr: Ipv4Cidr)
    requires
        server_cidr.wf(),
    ensures
        ({
            let rest = pow2((32 - server_cidr.prefix_len) as nat) as int;
            leasable(addr, server_cidr) <==> {
                &&& addr.bits != 0
                &&& addr.bits != 0xffff_ffff
                &&& !(0xe000_0000 <= addr.bits <= 0xefff_ffff)
                &&& first_bits_agree_v4(server_cidr.address, addr, server_cidr.prefix_len as int)
                &&& addr.bits != server_cidr.address.bits
                &&& addr.bits as int % rest != 0
                &&& server_cidr.prefix_len <= 30 ==> addr.bits as int % rest != rest - 1
            }
        }),
{
    let rest = pow2((32 - server_cidr.prefix_len) as nat) as int;
    subnet_is_its_prefix(IpCidr::Ipv4(server_cidr), IpAddress::Ipv4(addr));
    special_addresses_of_a_subnet(server_cidr);
    server_cidr.lemma_bounds();
    vstd::arithmetic::div_mod::lemma_fundamental_div_mod(addr.bits as int, rest);
    vstd::arithmetic::div_mod::lemma_fundamental_div_mod(
        server_cidr.network_addr().bits as int,
        rest,
    );
    if let Some(last) = server_cidr.broadcast_addr() {
        vstd::arithmetic::div_mod::lemma_fundamental_div_mod(last.bits as int, rest);
    }
}

/// An address is usable for a client if and only if it is in the pool, can be leased, and no
/// lease keeps it from the client.
pub proof fn usable_addresses(
    config: DhcpServerConfig,
    t: Seq<LeaseView>,
    id: ClientIdView,
    addr: Ipv4Address,
    now: Instant,
    server_cidr: Ipv4Cidr,
)
    ensures
        usable(config, t, id, addr, now, server_cidr) <==> {
            &&& config.pool_start.bits <= addr.bits
            &&& addr.bits <= config.pool_end.bits
            &&& leasable(addr, server_cidr)
            &&& forall|i: int|
                0 <= i < t.len() && (#[trigger] t[i]).address.bits == addr.bits && occupies(t[i], now)
                    ==> is_for_client(t[i], id) && t[i].state != DhcpServerLeaseState::Declined
        },
{
    assert forall|i: int| 0 <= i < t.len() implies (#[trigger] t[i]).withholds(addr, id, now) == (
    t[i].address.bits == addr.bits && occupies(t[i], now) && !(is_for_client(t[i], id)
        && t[i].state != DhcpServerLeaseState::Declined)) by {
        lease_keeps_its_address(t[i], addr, id, now);
    }
    if available_for(t, addr, id, now) {
        assert forall|i: int|
            0 <= i < t.len() && (#[trigger] t[i]).address.bits == addr.bits && occupies(
                t[i],
                now,
            ) implies is_for_client(t[i], id) && t[i].state != DhcpServerLeaseState::Declined by {
            assert(!t[i].withholds(addr, id, now));
        }
    }
}

/// The granted lease is the one asked for, but no longer than the configured one, and no
/// shorter than a minute unless the configured one is. Without a request it is the
/// configured one.
pub proof fn granted_lease_is_the_one_asked_for(config: DhcpServerConfig, asked: Duration)
    ensures
        granted_duration(config, None) == config.lease_duration,
        asked.micros >= config.lease_duration.micros ==> granted_duration(config, Some(asked))
            == config.lease_duration,
        60_000_000 <= asked.micros <= config.lease_duration.micros ==> granted_duration(
            config,
            Some(asked),
        ) == asked,
        asked.micros <= 60_000_000 <= config.lease_duration.micros ==> granted_duration(
            config,
            Some(asked),
        ).micros == 60_000_000,
        config.lease_duration.micros <= 60_000_000 ==> granted_duration(config, Some(asked))
            == config.lease_duration,
{
}

/// The lease of a client is the first that was made for it and was not declined.
pub proof fn lease_of_a_client(t: Seq<LeaseView>, id: ClientIdView)
    ensures
        find_by_client(t, id) is None <==> forall|i: int|
            0 <= i < t.len() ==> !is_for_client(#[trigger] t[i], id) || t[i].state
                == DhcpServerLeaseState::Declined,
        find_by_client(t, id) matches Some(k) ==> {
            &&& 0 <= k < t.len()
            &&& is_for_client(t[k], id)
            &&& t[k].state != DhcpServerLeaseState::Declined
            &&& forall|i: int|
                0 <= i < k ==> !is_for_client(#[trigger] t[i], id) || t[i].state
                    == DhcpServerLeaseState::Declined
        },
{
    let owned = |lease: LeaseView| lease.belongs_to(id);
    lemma_position(t, owned);
    assert forall|i: int| 0 <= i < t.len() implies owned(#[trigger] t[i]) == (is_for_client(
        t[i],
        id,
    ) && t[i].state != DhcpServerLeaseState::Declined) by {
        lease_keeps_its_address(t[i], t[i].address, id, t[i].expires_at);
    }
    match find_by_client(t, id) {
        Some(k) => {
            assert(owned(t[k]));
        },
        None => {
            assert forall|i: int| 0 <= i < t.len() implies !is_for_client(#[trigger] t[i], id)
                || t[i].state == DhcpServerLeaseState::Declined by {
                assert(!owned(t[i]));
            }
        },
    }
}

/// The record to be reclaimed first is the one that ended first of those that occupy no
/// address, and there is one unless every lease occupies its address.
pub proof fn oldest_record_is_reclaimed(t: Seq<LeaseView>, now: Instant)
    ensures
        longest_expired(t, now) is None <==> forall|i: int|
            0 <= i < t.len() ==> occupies(#[trigger] t[i], now),
        longest_expired(t, now) matches Some(k) ==> {
            &&& 0 <= k < t.len()
            &&& !occupies(t[k], now)
            &&& forall|i: int|
                0 <= i < t.len() && !occupies(#[trigger] t[i], now) ==> t[k].expires_at.micros
                    <= t[i].expires_at.micros && (i < k ==> t[k].expires_at.micros
                    < t[i].expires_at.micros)
        },
{
    assert forall|i: int| 0 <= i < t.len() implies (#[trigger] t[i]).active(now) == occupies(
        t[i],
        now,
    ) by {}
    let k = lemma_longest(t, now, t.len() as int);
    if exists|i: int| 0 <= i < t.len() && !occupies(#[trigger] t[i], now) {
        let i = choose|i: int| 0 <= i < t.len() && !occupies(#[trigger] t[i], now);
        assert(!t[i].active(now));
        assert(is_longest_expired(t, now, k));
        lemma_longest_expired(t, now, k);
        assert forall|i: int| 0 <= i < t.len() && !occupies(#[trigger] t[i], now) implies
            t[k].expires_at.micros <= t[i].expires_at.micros && (i < k ==> t[k].expires_at.micros
            < t[i].expires_at.micros) by {
            assert(!t[i].active(now));
        }
    } else if longest_expired(t, now) is Some {
        let found = choose|i: int| is_longest_expired(t, now, i);
        assert(is_longest_expired(t, now, found));
        assert(!t[found].active(now));
    }
}

/// Of the first `n` leases, the one to be reclaimed first.
proof fn lemma_longest(t: Seq<LeaseView>, now: Instant, n: int) -> (k: int)
    requires
        0 <= n <= t.len(),
    ensures
        (exists|i: int| 0 <= i < n && !(#[trigger] t[i]).active(now)) ==> 0 <= k < n
            && !t[k].active(now) && (forall|j: int|
            0 <= j < n && !(#[trigger] t[j]).active(now) ==> t[k].expires_at.micros
                <= t[j].expires_at.micros) && (forall|j: int|
            0 <= j < k && !(#[trigger] t[j]).active(now) ==> t[k].expires_at.micros
                < t[j].expires_at.micros),
    decreases n,
{
    if n == 0 {
        0
    } else {
        let before = lemma_longest(t, now, n - 1);
        let had = exists|i: int| 0 <= i < n - 1 && !(#[trigger] t[i]).active(now);
        if !t[n - 1].active(now) && (!had || t[n - 1].expires_at.micros
            < t[before].expires_at.micros) {
            n - 1
        } else {
            before
        }
    }
}

/// A client with a lease gets its slot. Another gets a new one at the end of a table that is
/// not full, else the slot of the record to be reclaimed first. Every other lease stays.
pub proof fn slot_of_a_client(
    t: Seq<LeaseView>,
    id: ClientIdView,
    chaddr: EthernetAddress,
    now: Instant,
)
    ensures
        entry_for(t, id, chaddr, now) is None <==> find_by_client(t, id) is None && t.len()
            >= DHCP_SERVER_LEASE_COUNT && longest_expired(t, now) is None,
        entry_for(t, id, chaddr, now) matches Some((table, k)) ==> {
            &&& table.len() == if find_by_client(t, id) is None && t.len() < DHCP_SERVER_LEASE_COUNT {
                t.len() + 1
            } else {
                t.len()
            }
            &&& k == if find_by_client(t, id) is Some {
                find_by_client(t, id)->0
            } else if t.len() < DHCP_SERVER_LEASE_COUNT {
                t.len() as int
            } else {
                longest_expired(t, now)->0
            }
            &&& forall|i: int| 0 <= i < t.len() && i != k ==> table[i] == #[trigger] t[i]
            &&& 0 <= k < table.len()
            &&& table[k].hardware_addr == chaddr
            &&& find_by_client(t, id) is Some ==> table[k] == (LeaseView {
                hardware_addr: chaddr,
                ..t[k]
            })
            &&& find_by_client(t, id) is None ==> table[k].state == DhcpServerLeaseState::Released
                && table[k].address.bits == 0 && table[k].expires_at.micros == 0
            &&& find_by_client(t, id) is None ==> table[k].client_id == match id {
                ClientIdView::Id(bytes) => if bytes.len() > 0 {
                    Some(bytes)
                } else {
                    None
                },
                ClientIdView::Hw(_) => None,
            }
        },
{
    lemma_position(t, |lease: LeaseView| lease.belongs_to(id));
    oldest_record_is_reclaimed(t, now);
}

/// Where an address is usable, there is a first one.
proof fn lemma_first_usable(
    config: DhcpServerConfig,
    t: Seq<LeaseView>,
    id: ClientIdView,
    now: Instant,
    server_cidr: Ipv4Cidr,
    addr: Ipv4Address,
)
    requires
        usable(config, t, id, addr, now, server_cidr),
    ensures
        exists|first: Ipv4Address| is_first_usable(config, t, id, now, server_cidr, first),
    decreases addr.bits,
{
    if exists|lower: Ipv4Address|
        lower.bits < addr.bits && #[trigger] usable(config, t, id, lower, now, server_cidr) {
        let lower = choose|lower: Ipv4Address|
            lower.bits < addr.bits && #[trigger] usable(config, t, id, lower, now, server_cidr);
        lemma_first_usable(config, t, id, now, server_cidr, lower);
    } else {
        assert(is_first_usable(config, t, id, now, server_cidr, addr));
    }
}

/// Whether a lease is bound to an address and runs.
pub open spec fn runs_on(lease: LeaseView, addr: Ipv4Address, now: Instant) -> bool {
    lease.state == DhcpServerLeaseState::Bound && lease.address.bits == addr.bits && now.micros
        < lease.expires_at.micros
}

/// Usable addresses are not a matter of the hardware addresses on record.
proof fn lemma_heard_usable(
    config: DhcpServerConfig,
    t: Seq<LeaseView>,
    request: DhcpRequestView,
    now: Instant,
    server_cidr: Ipv4Cidr,
)
    ensures
        forall|addr: Ipv4Address| #[trigger]
            usable(config, heard(t, request), client_of(request), addr, now, server_cidr) == usable(
                config,
                t,
                client_of(request),
                addr,
                now,
                server_cidr,
            ),
{
    lemma_heard(config, t, request);
}

/// A DISCOVER is answered with an offer if and only if an address is usable for the client
/// and there is a slot for it. The offered address is the one of the client's lease, else the
/// one it asks for, else the lowest, of those that are usable. What is offered is the rest of
/// a running lease unless the client asks for another time, else the time that is granted.
pub proof fn discover_is_answered_with_an_offer(
    config: DhcpServerConfig,
    t: Seq<LeaseView>,
    now: Instant,
    server_cidr: Ipv4Cidr,
    request: DhcpRequestView,
)
    ensures
        ({
            let id = client_of(request);
            let own = find_by_client(t, id);
            let asked = addr_in_option(request.requested_ip);
            let has_slot = own is Some || t.len() < DHCP_SERVER_LEASE_COUNT || exists|i: int|
                0 <= i < t.len() && !occupies(#[trigger] t[i], now);
            let reply = discover(config, t, now, server_cidr, request).reply;
            &&& reply is Some <==> has_slot && exists|addr: Ipv4Address| #[trigger]
                usable(config, t, id, addr, now, server_cidr)
            &&& reply matches Some(offer) ==> {
                let own_usable = own is Some && usable(
                    config,
                    t,
                    id,
                    t[own->0].address,
                    now,
                    server_cidr,
                );
                let asked_usable = asked is Some && usable(
                    config,
                    t,
                    id,
                    asked->0,
                    now,
                    server_cidr,
                );
                &&& offer.message_type == DhcpMessageType::Offer
                &&& offer.ciaddr.bits == 0
                &&& offer.message is None
                &&& usable(config, t, id, offer.yiaddr, now, server_cidr)
                &&& own_usable ==> offer.yiaddr == t[own->0].address
                &&& !own_usable && asked_usable ==> offer.yiaddr == asked->0
                &&& !own_usable && !asked_usable ==> forall|addr: Ipv4Address| #[trigger]
                    usable(config, t, id, addr, now, server_cidr) ==> offer.yiaddr.bits <= addr.bits
                &&& offer.lease_duration is Some
                &&& if own is Some && runs_on(t[own->0], offer.yiaddr, now) && requested_duration(
                    request,
                ) is None {
                    now.micros + offer.lease_duration->0.micros == t[own->0].expires_at.micros
                } else {
                    offer.lease_duration->0 == granted_duration(config, requested_duration(request))
                }
            }
        }),
{
    let id = client_of(request);
    let known = heard(t, request);
    lemma_heard(config, t, request);
    lemma_heard_usable(config, t, request, now, server_cidr);
    lease_of_a_client(t, id);
    slot_of_a_client(known, id, request.chaddr, now);
    oldest_record_is_reclaimed(known, now);
    let own = find_by_client(t, id);
    let asked = addr_in_option(request.requested_ip);
    assert forall|i: int| 0 <= i < t.len() implies occupies(#[trigger] known[i], now) == occupies(
        t[i],
        now,
    ) && known[i].address == t[i].address && known[i].state == t[i].state && known[i].expires_at
        == t[i].expires_at by {}
    if exists|i: int| 0 <= i < t.len() && !occupies(#[trigger] t[i], now) {
        let i = choose|i: int| 0 <= i < t.len() && !occupies(#[trigger] t[i], now);
        assert(!occupies(known[i], now));
    }
    if longest_expired(known, now) is Some {
        let k = longest_expired(known, now)->0;
        assert(!occupies(t[k], now));
    }
    if exists|addr: Ipv4Address| #[trigger] usable(config, t, id, addr, now, server_cidr) {
        let addr = choose|addr: Ipv4Address| #[trigger]
            usable(config, t, id, addr, now, server_cidr);
        lemma_first_usable(config, known, id, now, server_cidr, addr);
    }
    let first = choose|addr: Ipv4Address|
        is_first_usable(config, known, id, now, server_cidr, addr);
    if is_first_usable(config, known, id, now, server_cidr, first) {
        assert forall|addr: Ipv4Address| #[trigger]
            usable(config, t, id, addr, now, server_cidr) implies first.bits <= addr.bits by {
            assert(usable(config, known, id, addr, now, server_cidr));
        }
    }
}

/// An offer is put on record for a minute, in the one slot of the client, and a running lease
/// of the address keeps its end. Every other lease stays. Without an offer, only the hardware
/// address of the client's lease is noted.
pub proof fn offer_is_put_on_record(
    config: DhcpServerConfig,
    t: Seq<LeaseView>,
    now: Instant,
    server_cidr: Ipv4Cidr,
    request: DhcpRequestView,
)
    requires
        leases_apart(t, now),
        now.micros + 60_000_000 <= i64::MAX,
    ensures
        ({
            let id = client_of(request);
            let own = find_by_client(t, id);
            let step = discover(config, t, now, server_cidr, request);
            let slot = if own is Some {
                own->0
            } else if t.len() < DHCP_SERVER_LEASE_COUNT {
                t.len() as int
            } else {
                longest_expired(t, now)->0
            };
            &&& step.reply matches Some(offer) ==> {
                let lease = step.leases[slot];
                &&& step.leases.len() == if own is None && t.len() < DHCP_SERVER_LEASE_COUNT {
                    t.len() + 1
                } else {
                    t.len()
                }
                &&& forall|i: int| 0 <= i < t.len() && i != slot ==> step.leases[i] == #[trigger] t[i]
                &&& is_for_client(lease, id)
                &&& lease.hardware_addr == request.chaddr
                &&& lease.address == offer.yiaddr
                &&& if own is Some && runs_on(t[own->0], offer.yiaddr, now) {
                    lease.state == DhcpServerLeaseState::Bound && lease.expires_at
                        == t[own->0].expires_at
                } else {
                    lease.state == DhcpServerLeaseState::Offered && lease.expires_at.micros
                        == now.micros + 60_000_000
                }
            }
            &&& step.reply is None ==> {
                &&& step.leases.len() == t.len()
                &&& forall|i: int|
                    0 <= i < t.len() ==> step.leases[i] == if own == Some(i) {
                        LeaseView { hardware_addr: request.chaddr, ..t[i] }
                    } else {
                        #[trigger] t[i]
                    }
            }
        }),
{
    let id = client_of(request);
    let known = heard(t, request);
    lemma_heard(config, t, request);
    lease_of_a_client(t, id);
    lemma_client_identified(request);
    slot_of_a_client(known, id, request.chaddr, now);
    oldest_record_is_reclaimed(known, now);
    oldest_record_is_reclaimed(t, now);
    if entry_for(known, id, request.chaddr, now) is Some {
        lemma_entry(known, id, request.chaddr, now);
    }
    assert forall|i: int| 0 <= i < t.len() implies occupies(#[trigger] known[i], now) == occupies(
        t[i],
        now,
    ) && known[i].expires_at == t[i].expires_at && known[i] == if find_by_client(t, id) == Some(i) {
        LeaseView { hardware_addr: request.chaddr, ..t[i] }
    } else {
        t[i]
    } by {}
    if longest_expired(known, now) is Some && longest_expired(t, now) is Some {
        let a = longest_expired(known, now)->0;
        let b = longest_expired(t, now)->0;
        assert(!occupies(t[a], now) && !occupies(known[b], now));
    } else if longest_expired(known, now) is Some {
        assert(!occupies(t[longest_expired(known, now)->0], now));
    } else if longest_expired(t, now) is Some {
        assert(!occupies(known[longest_expired(t, now)->0], now));
    }
}

/// Whether no lease keeps an address from a client.
pub open spec fn is_free_for(
    t: Seq<LeaseView>,
    addr: Ipv4Address,
    id: ClientIdView,
    now: Instant,
) -> bool {
    forall|i: int|
        0 <= i < t.len() && (#[trigger] t[i]).address.bits == addr.bits && occupies(t[i], now)
            ==> is_for_client(t[i], id) && t[i].state != DhcpServerLeaseState::Declined
}

/// An address is available for a client if and only if no lease keeps it from the client.
proof fn lemma_free(t: Seq<LeaseView>, addr: Ipv4Address, id: ClientIdView, now: Instant)
    ensures
        available_for(t, addr, id, now) <==> is_free_for(t, addr, id, now),
{
    assert forall|i: int| 0 <= i < t.len() implies (#[trigger] t[i]).withholds(addr, id, now) == (
    t[i].address.bits == addr.bits && occupies(t[i], now) && !(is_for_client(t[i], id)
        && t[i].state != DhcpServerLeaseState::Declined)) by {
        lease_keeps_its_address(t[i], addr, id, now);
    }
    if available_for(t, addr, id, now) {
        assert forall|i: int|
            0 <= i < t.len() && (#[trigger] t[i]).address.bits == addr.bits && occupies(
                t[i],
                now,
            ) implies is_for_client(t[i], id) && t[i].state != DhcpServerLeaseState::Declined by {
            assert(!t[i].withholds(addr, id, now));
        }
    }
}

/// What a client that requests an address is answered. A client with a lease gets the address
/// of that, and no other. One without gets a free address of the pool, unless it only
/// confirms an address it remembers, or renews one that is not of the pool: those may be
/// known to another server, so there is no answer. Else the answer is no.
pub proof fn request_is_answered_by_the_record(
    config: DhcpServerConfig,
    t: Seq<LeaseView>,
    now: Instant,
    server_cidr: Ipv4Cidr,
    request: DhcpRequestView,
    addr: Ipv4Address,
)
    ensures
        ({
            let own = find_by_client(t, client_of(request));
            let answer = answer_to(config, t, now, server_cidr, request, addr);
            let pooled = config.pool_start.bits <= addr.bits && addr.bits <= config.pool_end.bits;
            let free = is_free_for(t, addr, client_of(request), now);
            let selecting = addr_in_option(request.server_id) is Some;
            let remembered = !selecting && addr_in_option(request.requested_ip) is Some;
            &&& answer is Ack <==> leasable(addr, server_cidr) && free && (if own is Some {
                t[own->0].address == addr
            } else {
                pooled && !remembered
            })
            &&& answer is Silent <==> leasable(addr, server_cidr) && own is None && (remembered
                || !selecting && !pooled)
            &&& !leasable(addr, server_cidr) ==> answer == Answer::Nak(
                "requested address not on this network",
            )
            &&& leasable(addr, server_cidr) && own is Some && !(answer is Ack) ==> answer
                == Answer::Nak("requested address does not match the lease")
            &&& leasable(addr, server_cidr) && own is None && selecting && !(answer is Ack)
                ==> answer == Answer::Nak("requested address is not available")
            &&& leasable(addr, server_cidr) && own is None && !selecting && !(answer is Ack) && !(
            answer is Silent) ==> answer == Answer::Nak("requested address is in use")
        }),
{
    lemma_free(t, addr, client_of(request), now);
}

/// The address a REQUEST is about is the one in its option, and else, if it names no server,
/// the one the client has.
pub proof fn requested_address(request: DhcpRequestView)
    ensures
        addr_in_option(request.requested_ip) is Some ==> claimed_addr(request) == addr_in_option(
            request.requested_ip,
        ),
        addr_in_option(request.requested_ip) is None && addr_in_option(request.server_id) is None
            && request.ciaddr.bits != 0 ==> claimed_addr(request) == Some(request.ciaddr),
        addr_in_option(request.requested_ip) is None && (addr_in_option(request.server_id) is Some
            || request.ciaddr.bits == 0) ==> claimed_addr(request) is None,
{
}

/// Whether a table is as it was, but for the hardware address of one client's lease.
pub open spec fn only_notes_the_client(
    t: Seq<LeaseView>,
    request: DhcpRequestView,
    after: Seq<LeaseView>,
) -> bool {
    let own = find_by_client(t, client_of(request));
    &&& after.len() == t.len()
    &&& forall|i: int|
        0 <= i < t.len() ==> #[trigger] after[i] == if own == Some(i) {
            LeaseView { hardware_addr: request.chaddr, ..t[i] }
        } else {
            t[i]
        }
}

/// Whether a table is as it was, but for one client's lease, which ended in a state at a time.
pub open spec fn only_ends_the_lease(
    t: Seq<LeaseView>,
    request: DhcpRequestView,
    after: Seq<LeaseView>,
    state: DhcpServerLeaseState,
    micros: int,
) -> bool {
    let own = find_by_client(t, client_of(request));
    &&& after.len() == t.len()
    &&& forall|i: int|
        0 <= i < t.len() ==> if own == Some(i) {
            &&& (#[trigger] after[i]).state == state
            &&& after[i].expires_at.micros == micros
            &&& after[i].address == t[i].address
            &&& after[i].client_id == t[i].client_id
            &&& after[i].hardware_addr == request.chaddr
        } else {
            after[i] == t[i]
        }
}

/// A REQUEST for another server is not answered, and ends the lease the client has here. One
/// that is about no address is not answered. One that gets no answer, or no for an answer,
/// changes no lease but for the hardware address it came from. A no says why, and names no
/// address and no time.
pub proof fn refused_request_changes_no_lease(
    config: DhcpServerConfig,
    t: Seq<LeaseView>,
    now: Instant,
    server_cidr: Ipv4Cidr,
    request: DhcpRequestView,
)
    ensures
        ({
            let step = request_step(config, t, now, server_cidr, request);
            let server = addr_in_option(request.server_id);
            let addr = claimed_addr(request);
            let elsewhere = server is Some && server->0.bits != server_cidr.address.bits;
            let answer = answer_to(config, t, now, server_cidr, request, addr->0);
            &&& elsewhere ==> step.reply is None && (if find_by_client(
                t,
                client_of(request),
            ) is Some {
                only_ends_the_lease(
                    t,
                    request,
                    step.leases,
                    DhcpServerLeaseState::Released,
                    now.micros as int,
                )
            } else {
                step.leases == t
            })
            &&& !elsewhere && addr is None ==> step.reply is None && only_notes_the_client(
                t,
                request,
                step.leases,
            )
            &&& !elsewhere && addr is Some && answer is Silent ==> step.reply is None
                && only_notes_the_client(t, request, step.leases)
            &&& !elsewhere && addr is Some && answer is Nak ==> only_notes_the_client(
                t,
                request,
                step.leases,
            ) && (step.reply matches Some(reply) && {
                &&& reply.message_type == DhcpMessageType::Nak
                &&& reply.ciaddr.bits == 0
                &&& reply.yiaddr.bits == 0
                &&& reply.lease_duration is None
                &&& reply.message == Some(answer->Nak_0)
            })
        }),
{
    lemma_heard(config, t, request);
    lease_of_a_client(t, client_of(request));
    lemma_position(t, |lease: LeaseView| lease.belongs_to(client_of(request)));
    let known = heard(t, request);
    if let Some(addr) = claimed_addr(request) {
        lemma_same_answer(config, t, now, server_cidr, request, addr);
    }
}

/// The answer to a request is not a matter of the hardware addresses on record.
proof fn lemma_same_answer(
    config: DhcpServerConfig,
    t: Seq<LeaseView>,
    now: Instant,
    server_cidr: Ipv4Cidr,
    request: DhcpRequestView,
    addr: Ipv4Address,
)
    ensures
        answer_to(config, heard(t, request), now, server_cidr, request, addr) == answer_to(
            config,
            t,
            now,
            server_cidr,
            request,
            addr,
        ),
{
    lemma_heard(config, t, request);
    lemma_position(t, |lease: LeaseView| lease.belongs_to(client_of(request)));
}

/// A REQUEST that is granted binds the address to the client for the granted time, and tells
/// it so. Of the leases of that address only the client's own are left, and every lease of
/// another address that the client does not have stays, unless there was no other slot and
/// it occupied no address. Only without a slot is the answer no.
pub proof fn granted_request_binds_the_address(
    config: DhcpServerConfig,
    t: Seq<LeaseView>,
    now: Instant,
    server_cidr: Ipv4Cidr,
    request: DhcpRequestView,
)
    requires
        leases_apart(t, now),
        claimed_addr(request) is Some,
        addr_in_option(request.server_id) is None || addr_in_option(request.server_id)->0.bits
            == server_cidr.address.bits,
        answer_to(config, t, now, server_cidr, request, claimed_addr(request)->0) is Ack,
        now.micros + config.lease_duration.micros <= i64::MAX,
    ensures
        ({
            let id = client_of(request);
            let addr = claimed_addr(request)->0;
            let step = request_step(config, t, now, server_cidr, request);
            let duration = granted_duration(config, requested_duration(request));
            let own = find_by_client(t, id);
            &&& step.reply is Some
            &&& step.reply->0.message_type == DhcpMessageType::Ack || step.reply->0.message_type
                == DhcpMessageType::Nak
            &&& step.reply->0.message_type == DhcpMessageType::Nak ==> own is None
                && step.reply->0.message == Some("no free leases") && step.reply->0.lease_duration
                is None && step.reply->0.yiaddr.bits == 0 && step.reply->0.ciaddr.bits == 0
                && forall|i: int|
                0 <= i < t.len() && (#[trigger] t[i]).address != addr ==> occupies(t[i], now)
            &&& step.reply->0.message_type == DhcpMessageType::Ack ==> {
                &&& step.reply->0.yiaddr == addr
                &&& step.reply->0.ciaddr == request.ciaddr
                &&& step.reply->0.lease_duration == Some(duration)
                &&& step.reply->0.message is None
                &&& exists|k: int|
                    {
                        &&& 0 <= k < step.leases.len()
                        &&& is_for_client(#[trigger] step.leases[k], id)
                        &&& step.leases[k].address == addr
                        &&& step.leases[k].state == DhcpServerLeaseState::Bound
                        &&& step.leases[k].expires_at.micros == now.micros + duration.micros
                        &&& step.leases[k].hardware_addr == request.chaddr
                    }
            }
            &&& forall|i: int|
                0 <= i < step.leases.len() && (#[trigger] step.leases[i]).address == addr
                    ==> is_for_client(step.leases[i], id)
            &&& forall|i: int|
                0 <= i < t.len() && own != Some(i) && (#[trigger] t[i]).address != addr && (own is Some
                    || occupies(t[i], now) || t.len() < DHCP_SERVER_LEASE_COUNT)
                    ==> step.leases.contains(t[i])
        }),
{
    let id = client_of(request);
    let addr = claimed_addr(request)->0;
    lemma_heard(config, t, request);
    lemma_client_identified(request);
    lease_of_a_client(t, id);
    lemma_same_answer(config, t, now, server_cidr, request, addr);
    super::dhcpv4_laws::granted_duration_is_bounded(config, requested_duration(request));
    let known = heard(t, request);
    let keep = |lease: LeaseView| lease.outlives(addr, Some(id));
    let kept = known.filter(keep);
    lemma_filter_apart(known, now, keep);
    let step = grant(config, known, now, request, addr);
    let own = find_by_client(t, id);
    crate::lists::lemma_filter_drops(known, keep);
    assert forall|k: int| 0 <= k < kept.len() && (#[trigger] kept[k]).address == addr implies
        is_for_client(kept[k], id) by {
        lemma_filter_from(known, keep, k);
        assert(keep(kept[k]));
    }
    assert forall|i: int| 0 <= i < t.len() && (#[trigger] t[i]).address != addr implies exists|k: int|
        0 <= k < kept.len() && #[trigger] kept[k] == known[i] by {
        assert(keep(known[i]));
        lemma_filter_keeps(known, keep, i);
    }
    if own is Some {
        lease_of_a_client(known, id);
        let k = own->0;
        assert(keep(known[k]));
        lemma_filter_keeps(known, keep, k);
        let at = choose|at: int| 0 <= at < kept.len() && #[trigger] kept[at] == known[k];
        lemma_find_is(kept, id, at);
    } else {
        lease_of_a_client(kept, id);
        assert forall|k: int| 0 <= k < kept.len() implies !is_for_client(#[trigger] kept[k], id)
            || kept[k].state == DhcpServerLeaseState::Declined by {
            lemma_filter_from(known, keep, k);
            let i = choose|i: int| 0 <= i < known.len() && #[trigger] known[i] == kept[k];
            assert(known[i] == t[i]);
        }
    }
    slot_of_a_client(kept, id, request.chaddr, now);
    oldest_record_is_reclaimed(kept, now);
    if entry_for(kept, id, request.chaddr, now) is Some {
        lemma_entry(kept, id, request.chaddr, now);
        let (table, slot) = entry_for(kept, id, request.chaddr, now)->0;
        assert(step.leases[slot].address == addr);
        assert(is_for_client(step.leases[slot], id));
        assert forall|i: int|
            0 <= i < step.leases.len() && (#[trigger] step.leases[i]).address == addr implies
            is_for_client(step.leases[i], id) by {
            if i != slot {
                assert(step.leases[i] == table[i]);
                assert(table[i] == kept[i]);
            }
        }
        assert forall|i: int|
            0 <= i < t.len() && own != Some(i) && (#[trigger] t[i]).address != addr && (own is Some
                || occupies(t[i], now) || t.len() < DHCP_SERVER_LEASE_COUNT) implies
            step.leases.contains(t[i]) by {
            let k = choose|k: int| 0 <= k < kept.len() && #[trigger] kept[k] == known[i];
            assert(known[i] == t[i]);
            if k == slot {
                if own is Some {
                    assert(is_for_client(kept[k], id));
                    assert(kept[k].state != DhcpServerLeaseState::Declined);
                    let o = own->0;
                    if i < o {
                        assert(super::dhcpv4_laws::different_clients()(t[i], t[o]));
                    } else {
                        assert(super::dhcpv4_laws::different_clients()(t[o], t[i]));
                    }
                    super::dhcpv4_laws::lemma_holder(t[i], id);
                    super::dhcpv4_laws::lemma_holder(t[o], id);
                    assert(false);
                } else {
                    assert(!occupies(kept[k], now));
                    assert(false);
                }
            }
            assert(step.leases[k] == t[i]);
        }
    } else {
        assert forall|i: int| 0 <= i < t.len() && (#[trigger] t[i]).address != addr implies occupies(
            t[i],
            now,
        ) by {
            let k = choose|k: int| 0 <= k < kept.len() && #[trigger] kept[k] == known[i];
            assert(occupies(kept[k], now));
        }
        assert forall|i: int|
            0 <= i < t.len() && own != Some(i) && (#[trigger] t[i]).address != addr implies
            step.leases.contains(t[i]) by {
            let k = choose|k: int| 0 <= k < kept.len() && #[trigger] kept[k] == known[i];
            assert(known[i] == t[i]);
            assert(step.leases[k] == t[i]);
        }
    }
}

/// A DECLINE of the address of its client's lease holds the address back for ten minutes. A
/// RELEASE of the address of its client's lease ends the lease if it occupies the address.
/// Others only note where they came from. None is answered.
pub proof fn declining_and_releasing(
    config: DhcpServerConfig,
    t: Seq<LeaseView>,
    now: Instant,
    server_cidr: Ipv4Cidr,
    request: DhcpRequestView,
)
    requires
        now.micros + 600_000_000 <= i64::MAX,
    ensures
        ({
            let own = find_by_client(t, client_of(request));
            let named = addr_in_option(request.requested_ip);
            let declining = server_step(
                config,
                t,
                now,
                server_cidr,
                DhcpMessageType::Decline,
                request,
            );
            let releasing = server_step(
                config,
                t,
                now,
                server_cidr,
                DhcpMessageType::Release,
                request,
            );
            &&& declining.reply is None
            &&& releasing.reply is None
            &&& if own is Some && named is Some && named->0.bits == t[own->0].address.bits {
                only_ends_the_lease(
                    t,
                    request,
                    declining.leases,
                    DhcpServerLeaseState::Declined,
                    now.micros + 600_000_000,
                )
            } else {
                only_notes_the_client(t, request, declining.leases)
            }
            &&& if own is Some && request.ciaddr.bits == t[own->0].address.bits && occupies(
                t[own->0],
                now,
            ) {
                only_ends_the_lease(
                    t,
                    request,
                    releasing.leases,
                    DhcpServerLeaseState::Released,
                    now.micros as int,
                )
            } else {
                only_notes_the_client(t, request, releasing.leases)
            }
        }),
{
    lemma_heard(config, t, request);
    lease_of_a_client(t, client_of(request));
    lemma_position(t, |lease: LeaseView| lease.belongs_to(client_of(request)));
}

/// An INFORM of a client that has an address is acknowledged, without an address or a time,
/// and changes no lease. Messages that a server sends, or that are unknown, do nothing. A
/// DISCOVER and a REQUEST are handled as such.
pub proof fn inform_is_acknowledged(
    config: DhcpServerConfig,
    t: Seq<LeaseView>,
    now: Instant,
    server_cidr: Ipv4Cidr,
    message_type: DhcpMessageType,
    request: DhcpRequestView,
)
    ensures
        ({
            let step = server_step(config, t, now, server_cidr, message_type, request);
            &&& message_type is Inform ==> only_notes_the_client(t, request, step.leases) && (
            step.reply is Some <==> request.ciaddr.bits != 0)
            &&& message_type is Inform ==> (step.reply matches Some(reply) ==> reply.message_type
                == DhcpMessageType::Ack && reply.ciaddr == request.ciaddr && reply.yiaddr.bits == 0
                && reply.lease_duration is None && reply.message is None)
            &&& message_type is Offer || message_type is Ack || message_type is Nak
                || message_type is Unknown ==> step.reply is None && step.leases == t
            &&& message_type is Discover ==> step == discover(config, t, now, server_cidr, request)
            &&& message_type is Request ==> step == request_step(
                config,
                t,
                now,
                server_cidr,
                request,
            )
        }),
{
    lemma_heard(config, t, request);
    lease_of_a_client(t, client_of(request));
    lemma_position(t, |lease: LeaseView| lease.belongs_to(client_of(request)));
}

/// A refusal goes to everyone. Any other reply goes to the address the client has, if it has
/// one, else to everyone if the client asks for that, and else to the address it is given,
/// and, but for what goes to everyone, to the hardware address of the client.
pub proof fn replies_reach_the_client(request: DhcpRequestView, reply: Reply)
    ensures
        ({
            let (addr, hardware_addr) = destination(request, reply);
            let to_all = reply.message_type == DhcpMessageType::Nak || reply.ciaddr.bits == 0
                && request.flags.bits >= 0x8000;
            &&& to_all ==> addr.bits == 0xffff_ffff && hardware_addr == EthernetAddress(
                0xff,
                0xff,
                0xff,
                0xff,
                0xff,
                0xff,
            )
            &&& !to_all ==> hardware_addr == request.chaddr
            &&& !to_all && reply.ciaddr.bits != 0 ==> addr == reply.ciaddr
            &&& !to_all && reply.ciaddr.bits == 0 ==> addr == reply.yiaddr
        }),
{
}

} // verus!

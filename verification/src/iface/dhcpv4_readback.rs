//! What a client reads in the replies of the DHCPv4 server.

use super::dhcpv4_server::{
    address_bytes, config_options, leading_options, lease_secs, listed_addresses, options_bytes,
    reply_fits, reply_message, reply_options, unpadded_message, DhcpServerConfig, Reply,
    MIN_MESSAGE_SIZE,
};
use crate::wire::bytes::{
    be16, be32, lemma_be16_round_trip, lemma_be32_round_trip, u16_at, u32_at, zeros,
};
use crate::wire::dhcpv4::{
    option_bytes, option_in, reply_header, DhcpMessageType, DhcpOption, DhcpPacket, DhcpRequestView,
    DHCP_HEADER_LEN, DHCP_MAGIC_NUMBER, OPT_DHCP_MESSAGE_TYPE, OPT_DOMAIN_NAME_SERVER, OPT_END,
    OPT_IP_LEASE_TIME, OPT_MESSAGE, OPT_PAD, OPT_ROUTER, OPT_SERVER_IDENTIFIER, OPT_SUBNET_MASK,
};
use crate::wire::format_laws::bits_at;
use crate::wire::{EthernetAddress, Ipv4Address, Ipv4Cidr};
use vstd::arithmetic::power2::pow2;
use vstd::prelude::*;
use vstd::utf8::encode_utf8;

verus! {

/// An option that was written is read back, and one in front of it is passed over.
pub proof fn option_round_trip(kind: u8, data: Seq<u8>, rest: Seq<u8>, wanted: u8)
    requires
        kind != OPT_PAD,
        kind != OPT_END,
        data.len() <= 255,
    ensures
        option_in(option_bytes(kind, data) + rest, wanted) == if kind == wanted {
            Some(data)
        } else {
            option_in(rest, wanted)
        },
{
    let options = option_bytes(kind, data) + rest;
    assert(options[0] == kind);
    assert(options[1] == data.len());
    assert(options.subrange(2, 2 + options[1]) =~= data);
    assert(options.skip(2 + options[1]) =~= rest);
}

/// Whether none of the options is of this kind, nor padding or the end marker, which
/// are no options.
pub open spec fn are_not_of_kind(options: Seq<DhcpOption<'static>>, kind: u8) -> bool {
    forall|i: int|
        0 <= i < options.len() ==> (#[trigger] options[i]).kind != kind && options[i].kind
            != OPT_PAD && options[i].kind != OPT_END
}

/// Options of other kinds are passed over on the way to one.
proof fn lemma_options_passed_over(
    options: Seq<DhcpOption<'static>>,
    rest: Seq<u8>,
    wanted: u8,
)
    requires
        are_not_of_kind(options, wanted),
        forall|i: int| 0 <= i < options.len() ==> (#[trigger] options[i]).data@.len() <= 255,
    ensures
        option_in(options_bytes(options) + rest, wanted) == option_in(rest, wanted),
    decreases options.len(),
{
    if options.len() == 0 {
        assert(options_bytes(options) + rest =~= rest);
    } else {
        let last = options.last();
        let after = option_bytes(last.kind, last.data@) + rest;
        assert(last == options[options.len() - 1]);
        assert(options_bytes(options) + rest =~= options_bytes(options.drop_last()) + after);
        assert forall|i: int| 0 <= i < options.drop_last().len() implies (
        #[trigger] options.drop_last()[i]).data@.len() <= 255 && options.drop_last()[i].kind
            != wanted && options.drop_last()[i].kind != OPT_PAD && options.drop_last()[i].kind
            != OPT_END by {
            assert(options.drop_last()[i] == options[i]);
        }
        lemma_options_passed_over(options.drop_last(), after, wanted);
        option_round_trip(last.kind, last.data@, rest, wanted);
    }
}

/// What follows the options every reply starts with.
spec fn tail(
    config: DhcpServerConfig,
    server_cidr: Ipv4Cidr,
    reply: Reply,
    padding: Seq<u8>,
) -> Seq<u8> {
    (if reply.message_type != DhcpMessageType::Nak {
        config_options(config, server_cidr)
    } else {
        Seq::empty()
    }) + (match reply.message {
        Some(message) => option_bytes(OPT_MESSAGE, encode_utf8(message@)),
        None => Seq::empty(),
    } + (seq![OPT_END] + padding))
}

/// The options every reply starts with are found, and are passed over on the way to
/// others.
proof fn lemma_leading_options(server_cidr: Ipv4Cidr, reply: Reply, rest: Seq<u8>)
    ensures
        ({
            let options = leading_options(server_cidr, reply) + rest;
            &&& option_in(options, OPT_DHCP_MESSAGE_TYPE) == Some(
                seq![reply.message_type.number()],
            )
            &&& option_in(options, OPT_SERVER_IDENTIFIER) == Some(server_cidr.address.octets())
            &&& reply.lease_duration matches Some(duration) ==> option_in(
                options,
                OPT_IP_LEASE_TIME,
            ) == Some(be32(lease_secs(duration)))
            &&& reply.lease_duration is None ==> option_in(options, OPT_IP_LEASE_TIME)
                == option_in(rest, OPT_IP_LEASE_TIME)
            &&& forall|kind: u8|
                kind != OPT_DHCP_MESSAGE_TYPE && kind != OPT_SERVER_IDENTIFIER && kind
                    != OPT_IP_LEASE_TIME ==> #[trigger] option_in(options, kind) == option_in(
                    rest,
                    kind,
                )
        }),
{
    let kind_data = seq![reply.message_type.number()];
    let server_data = server_cidr.address.octets();
    let third = match reply.lease_duration {
        Some(duration) => option_bytes(OPT_IP_LEASE_TIME, be32(lease_secs(duration))),
        None => Seq::empty(),
    };
    let after_server = third + rest;
    let after_kind = option_bytes(OPT_SERVER_IDENTIFIER, server_data) + after_server;
    let options = leading_options(server_cidr, reply) + rest;
    assert(options =~= option_bytes(OPT_DHCP_MESSAGE_TYPE, kind_data) + after_kind);
    assert(third.len() == 0 ==> after_server =~= rest);
    assert forall|kind: u8| true implies #[trigger] option_in(options, kind) == if kind
        == OPT_DHCP_MESSAGE_TYPE {
        Some(kind_data)
    } else if kind == OPT_SERVER_IDENTIFIER {
        Some(server_data)
    } else {
        option_in(after_server, kind)
    } by {
        option_round_trip(OPT_DHCP_MESSAGE_TYPE, kind_data, after_kind, kind);
        option_round_trip(OPT_SERVER_IDENTIFIER, server_data, after_server, kind);
    }
    if let Some(duration) = reply.lease_duration {
        assert forall|kind: u8| true implies #[trigger] option_in(after_server, kind) == if kind
            == OPT_IP_LEASE_TIME {
            Some(be32(lease_secs(duration)))
        } else {
            option_in(rest, kind)
        } by {
            option_round_trip(OPT_IP_LEASE_TIME, be32(lease_secs(duration)), rest, kind);
        }
    }
}

/// The configuration sent to a client is found.
proof fn lemma_config_options(config: DhcpServerConfig, server_cidr: Ipv4Cidr, rest: Seq<u8>)
    requires
        listed_addresses(config.dns_servers).len() <= 63,
        forall|i: int|
            0 <= i < config.outgoing_options@.len() ==> (
            #[trigger] config.outgoing_options@[i]).data@.len() <= 255,
    ensures
        ({
            let options = config_options(config, server_cidr) + rest;
            let servers = listed_addresses(config.dns_servers);
            &&& forall|kind: u8|
                are_not_of_kind(config.outgoing_options@, kind) && kind != OPT_SUBNET_MASK && (kind
                    != OPT_ROUTER || config.gateway is None) && (kind != OPT_DOMAIN_NAME_SERVER
                    || servers.len() == 0) ==> #[trigger] option_in(options, kind) == option_in(
                    rest,
                    kind,
                )
            &&& option_in(options, OPT_SUBNET_MASK) == Some(server_cidr.mask().octets())
            &&& config.gateway matches Some(gateway) ==> option_in(options, OPT_ROUTER) == Some(
                gateway.octets(),
            )
            &&& servers.len() > 0 ==> option_in(options, OPT_DOMAIN_NAME_SERVER) == Some(
                address_bytes(servers),
            )
        }),
{
    let servers = listed_addresses(config.dns_servers);
    let mask_data = server_cidr.mask().octets();
    let router = match config.gateway {
        Some(gateway) => option_bytes(OPT_ROUTER, gateway.octets()),
        None => Seq::empty(),
    };
    let dns = if servers.len() > 0 {
        option_bytes(OPT_DOMAIN_NAME_SERVER, address_bytes(servers))
    } else {
        Seq::empty()
    };
    let extra = options_bytes(config.outgoing_options@) + rest;
    let after_router = dns + extra;
    let after_mask = router + after_router;
    let options = config_options(config, server_cidr) + rest;
    assert(options =~= option_bytes(OPT_SUBNET_MASK, mask_data) + after_mask);
    option_round_trip(OPT_SUBNET_MASK, mask_data, after_mask, OPT_SUBNET_MASK);
    option_round_trip(OPT_SUBNET_MASK, mask_data, after_mask, OPT_ROUTER);
    option_round_trip(OPT_SUBNET_MASK, mask_data, after_mask, OPT_DOMAIN_NAME_SERVER);
    match config.gateway {
        Some(gateway) => {
            option_round_trip(OPT_ROUTER, gateway.octets(), after_router, OPT_ROUTER);
            option_round_trip(
                OPT_ROUTER,
                gateway.octets(),
                after_router,
                OPT_DOMAIN_NAME_SERVER,
            );
        },
        None => {
            assert(after_mask =~= after_router);
        },
    }
    if servers.len() > 0 {
        super::dhcpv4_fit::lemma_address_bytes_len(servers);
        option_round_trip(
            OPT_DOMAIN_NAME_SERVER,
            address_bytes(servers),
            extra,
            OPT_DOMAIN_NAME_SERVER,
        );
    } else {
        assert(after_router =~= extra);
    }
    assert forall|kind: u8|
        are_not_of_kind(config.outgoing_options@, kind) && kind != OPT_SUBNET_MASK && (kind
            != OPT_ROUTER || config.gateway is None) && (kind != OPT_DOMAIN_NAME_SERVER
            || servers.len() == 0) implies #[trigger] option_in(options, kind) == option_in(
        rest,
        kind,
    ) by {
        option_round_trip(OPT_SUBNET_MASK, mask_data, after_mask, kind);
        if let Some(gateway) = config.gateway {
            option_round_trip(OPT_ROUTER, gateway.octets(), after_router, kind);
        }
        if servers.len() > 0 {
            option_round_trip(OPT_DOMAIN_NAME_SERVER, address_bytes(servers), extra, kind);
        }
        lemma_options_passed_over(config.outgoing_options@, rest, kind);
    }
}

/// The fields of the header are where a client looks for them.
proof fn lemma_header(
    config: DhcpServerConfig,
    server_cidr: Ipv4Cidr,
    request: DhcpRequestView,
    reply: Reply,
)
    requires
        0 <= request.xid <= u32::MAX,
    ensures
        ({
            let header = reply_header(
                reply.message_type,
                request.xid,
                request.flags,
                reply.ciaddr,
                reply.yiaddr,
                request.chaddr,
            );
            &&& header.len() == DHCP_HEADER_LEN
            &&& header[0] == reply.message_type.op()
            &&& u32_at(header, 4) == request.xid
            &&& u16_at(header, 10) == request.flags.bits
            &&& u32_at(header, 12) == reply.ciaddr.bits
            &&& u32_at(header, 16) == reply.yiaddr.bits
            &&& EthernetAddress::at(header, 28) == request.chaddr
            &&& u32_at(header, 236) == DHCP_MAGIC_NUMBER
        }),
{
    let header = reply_header(
        reply.message_type,
        request.xid,
        request.flags,
        reply.ciaddr,
        reply.yiaddr,
        request.chaddr,
    );
    lemma_be32_round_trip(request.xid as u32);
    lemma_be16_round_trip(request.flags.bits);
    lemma_be32_round_trip(reply.ciaddr.bits);
    lemma_be32_round_trip(reply.yiaddr.bits);
    lemma_be32_round_trip(DHCP_MAGIC_NUMBER);
    assert(header.subrange(4, 8) =~= be32(request.xid));
    assert(header.subrange(10, 12) =~= be16(request.flags.bits as int));
    assert(header.subrange(12, 16) =~= be32(reply.ciaddr.bits as int));
    assert(header.subrange(16, 20) =~= be32(reply.yiaddr.bits as int));
    assert(header.subrange(28, 34) =~= request.chaddr.octets());
    assert(header.subrange(236, 240) =~= be32(DHCP_MAGIC_NUMBER as int));
    lemma_same_u32(header, 4);
    lemma_same_u32(header, 12);
    lemma_same_u32(header, 16);
    lemma_same_u32(header, 236);
    assert(u16_at(header, 10) == u16_at(header.subrange(10, 12), 0));
    assert forall|i: int| 0 <= i < 6 implies #[trigger] header[28 + i] == request.chaddr.octets()[i] by {
        assert(header.subrange(28, 34)[i] == header[28 + i]);
    }
}

/// An integer is the one in the part of the bytes that holds it.
proof fn lemma_same_u32(bytes: Seq<u8>, at: int)
    requires
        0 <= at,
        at + 4 <= bytes.len(),
    ensures
        u32_at(bytes, at) == u32_at(bytes.subrange(at, at + 4), 0),
{
}

/// A client reads in a reply what the server put there: the transaction, the
/// addresses, the type of the message, the server, the lease time, and the
/// configuration or the reason for a refusal. Without a lease there is no lease time,
/// without a gateway no router, and without DNS servers none are named, unless the
/// outgoing options hold such an option.
pub proof fn reply_is_readable(
    config: DhcpServerConfig,
    server_cidr: Ipv4Cidr,
    request: DhcpRequestView,
    reply: Reply,
)
    requires
        reply_fits(config, server_cidr, request, reply),
        listed_addresses(config.dns_servers).len() <= crate::config::DHCP_MAX_DNS_SERVER_COUNT,
        0 <= request.xid <= u32::MAX,
    ensures
        ({
            let message = reply_message(config, server_cidr, request, reply);
            let options = message.skip(DHCP_HEADER_LEN as int);
            let servers = listed_addresses(config.dns_servers);
            &&& message.len() >= MIN_MESSAGE_SIZE
            &&& message[0] == reply.message_type.op()
            &&& u32_at(message, 4) == request.xid
            &&& u16_at(message, 10) == request.flags.bits
            &&& u32_at(message, 12) == reply.ciaddr.bits
            &&& u32_at(message, 16) == reply.yiaddr.bits
            &&& EthernetAddress::at(message, 28) == request.chaddr
            &&& u32_at(message, 236) == DHCP_MAGIC_NUMBER
            &&& option_in(options, OPT_DHCP_MESSAGE_TYPE) == Some(
                seq![reply.message_type.number()],
            )
            &&& option_in(options, OPT_SERVER_IDENTIFIER) == Some(server_cidr.address.octets())
            &&& reply.lease_duration matches Some(duration) ==> option_in(
                options,
                OPT_IP_LEASE_TIME,
            ) == Some(be32(lease_secs(duration)))
            &&& reply.lease_duration is None && (reply.message_type == DhcpMessageType::Nak
                || are_not_of_kind(config.outgoing_options@, OPT_IP_LEASE_TIME)) ==> option_in(
                options,
                OPT_IP_LEASE_TIME,
            ) is None
            &&& reply.message_type != DhcpMessageType::Nak ==> {
                &&& config.gateway is None && are_not_of_kind(config.outgoing_options@, OPT_ROUTER)
                    ==> option_in(options, OPT_ROUTER) is None
                &&& servers.len() == 0 && are_not_of_kind(
                    config.outgoing_options@,
                    OPT_DOMAIN_NAME_SERVER,
                ) ==> option_in(options, OPT_DOMAIN_NAME_SERVER) is None
                &&& option_in(options, OPT_SUBNET_MASK) == Some(server_cidr.mask().octets())
                &&& config.gateway matches Some(gateway) ==> option_in(options, OPT_ROUTER)
                    == Some(gateway.octets())
                &&& servers.len() > 0 ==> option_in(options, OPT_DOMAIN_NAME_SERVER) == Some(
                    address_bytes(servers),
                )
            }
            &&& reply.message_type == DhcpMessageType::Nak ==> {
                &&& option_in(options, OPT_SUBNET_MASK) is None
                &&& reply.message matches Some(text) ==> option_in(options, OPT_MESSAGE) == Some(
                    encode_utf8(text@),
                )
            }
        }),
{
    let message = reply_message(config, server_cidr, request, reply);
    let unpadded = unpadded_message(config, server_cidr, request, reply);
    let header = reply_header(
        reply.message_type,
        request.xid,
        request.flags,
        reply.ciaddr,
        reply.yiaddr,
        request.chaddr,
    );
    let padding = if unpadded.len() < MIN_MESSAGE_SIZE {
        zeros(MIN_MESSAGE_SIZE - unpadded.len())
    } else {
        Seq::empty()
    };
    let options = message.skip(DHCP_HEADER_LEN as int);
    let rest = tail(config, server_cidr, reply, padding);
    lemma_header(config, server_cidr, request, reply);
    assert(message =~= header + reply_options(config, server_cidr, reply) + padding);
    assert(options =~= leading_options(server_cidr, reply) + rest);
    assert forall|i: int| 0 <= i < DHCP_HEADER_LEN implies #[trigger] message[i] == header[i] by {}
    lemma_leading_options(server_cidr, reply, rest);
    let text = match reply.message {
        Some(message) => option_bytes(OPT_MESSAGE, encode_utf8(message@)),
        None => Seq::empty(),
    };
    let end = seq![OPT_END] + padding;
    if reply.message_type != DhcpMessageType::Nak {
        assert(rest =~= config_options(config, server_cidr) + (text + end));
        lemma_config_options(config, server_cidr, text + end);
    } else {
        assert(rest =~= text + end);
    }
    assert(end[0] == OPT_END);
    match reply.message {
        Some(message) => {
            let data = encode_utf8(message@);
            assert forall|kind: u8| true implies #[trigger] option_in(text + end, kind) == if kind
                == OPT_MESSAGE {
                Some(data)
            } else {
                None
            } by {
                option_round_trip(OPT_MESSAGE, data, end, kind);
            }
        },
        None => {
            assert(text + end =~= end);
        },
    }
}

/// Options are read one by one: a zero is passed over, 255 ends them, and any other starts an
/// option of its kind with its length behind it. The first of a kind counts. One that is cut
/// short ends them too.
pub proof fn options_are_read_in_order(options: Seq<u8>, kind: u8)
    ensures
        options.len() == 0 ==> option_in(options, kind) is None,
        options.len() > 0 && options[0] == 255 ==> option_in(options, kind) is None,
        options.len() > 0 && options[0] == 0 ==> option_in(options, kind) == option_in(
            options.skip(1),
            kind,
        ),
        options.len() == 1 && options[0] != 0 ==> option_in(options, kind) is None,
        options.len() >= 2 && options[0] != 0 && options[0] != 255 ==> {
            let len = options[1] as int;
            &&& options.len() < len + 2 ==> option_in(options, kind) is None
            &&& options.len() >= len + 2 && options[0] == kind ==> (option_in(
                options,
                kind,
            ) matches Some(data) && data.len() == len && forall|i: int|
                0 <= i < len ==> data[i] == #[trigger] options[i + 2])
            &&& options.len() >= len + 2 && options[0] != kind ==> option_in(options, kind)
                == option_in(options.skip(len + 2), kind)
        },
{
    reveal_with_fuel(option_in, 2);
    if options.len() >= 2 && options[0] != 0 && options[0] != 255 && options.len() >= options[1]
        + 2 && options[0] == kind {
        let data = option_in(options, kind)->0;
        assert forall|i: int| 0 <= i < options[1] implies data[i] == #[trigger] options[i + 2] by {}
    }
}

/// A list of addresses takes four bytes each, in order.
proof fn lemma_addresses_in_order(addrs: Seq<Ipv4Address>, i: int)
    ensures
        address_bytes(addrs).len() == 4 * addrs.len(),
        0 <= i < addrs.len() ==> bits_at(address_bytes(addrs), 4 * i) == addrs[i].bits,
    decreases addrs.len(),
{
    if addrs.len() > 0 {
        let rest = addrs.drop_last();
        lemma_addresses_in_order(rest, i);
        lemma_be32_round_trip(addrs.last().bits);
        let bytes = address_bytes(addrs);
        let front = address_bytes(rest);
        assert(bytes =~= front + addrs.last().octets());
        if 0 <= i < rest.len() {
            assert(rest[i] == addrs[i]);
            assert forall|k: int| 0 <= k < 4 implies bytes[4 * i + k] == #[trigger] front[4 * i
                + k] by {}
            assert(bytes[4 * i] == front[4 * i + 0]);
            assert(bytes[4 * i + 1] == front[4 * i + 1]);
            assert(bytes[4 * i + 2] == front[4 * i + 2]);
            assert(bytes[4 * i + 3] == front[4 * i + 3]);
        } else if i == rest.len() {
            let last = addrs.last().octets();
            assert(bytes[4 * i] == last[0]);
            assert(bytes[4 * i + 1] == last[1]);
            assert(bytes[4 * i + 2] == last[2]);
            assert(bytes[4 * i + 3] == last[3]);
            assert(bits_at(bytes, 4 * i) == u32_at(last, 0));
        }
    }
}

/// Whether an option holds one address.
pub open spec fn holds_address(data: Option<Seq<u8>>, addr: Ipv4Address) -> bool {
    data matches Some(data) && data.len() == 4 && bits_at(data, 0) == addr.bits
}

/// A client is told, in the reply that gives it an address or its configuration: every
/// configured DNS server in order, the gateway, the bits of the subnet's prefix as a mask,
/// the address of the server, and for how many whole seconds the lease runs, as far as 32
/// bits can say.
pub proof fn client_is_told_its_configuration(
    config: DhcpServerConfig,
    server_cidr: Ipv4Cidr,
    request: DhcpRequestView,
    reply: Reply,
)
    requires
        server_cidr.wf(),
        reply_fits(config, server_cidr, request, reply),
        listed_addresses(config.dns_servers).len() <= crate::config::DHCP_MAX_DNS_SERVER_COUNT,
        0 <= request.xid <= u32::MAX,
    ensures
        ({
            let options = reply_message(config, server_cidr, request, reply).skip(240);
            let servers = listed_addresses(config.dns_servers);
            &&& holds_address(option_in(options, 54), server_cidr.address)
            &&& option_in(options, 53) == Some(
                seq![
                    match reply.message_type {
                        DhcpMessageType::Discover => 1u8,
                        DhcpMessageType::Offer => 2u8,
                        DhcpMessageType::Request => 3u8,
                        DhcpMessageType::Decline => 4u8,
                        DhcpMessageType::Ack => 5u8,
                        DhcpMessageType::Nak => 6u8,
                        DhcpMessageType::Release => 7u8,
                        DhcpMessageType::Inform => 8u8,
                        DhcpMessageType::Unknown(number) => number,
                    },
                ],
            )
            &&& reply.lease_duration matches Some(duration) ==> (option_in(options, 51) matches Some(
                data,
            ) && data.len() == 4 && if duration.micros < 0x1_0000_0000 * 1_000_000 {
                bits_at(data, 0) * 1_000_000 <= duration.micros < (bits_at(data, 0) + 1)
                    * 1_000_000
            } else {
                bits_at(data, 0) == 0xffff_ffff
            })
            &&& !(reply.message_type is Nak) ==> {
                &&& option_in(options, 1) matches Some(mask) && mask.len() == 4 && (
                server_cidr.prefix_len > 0 ==> bits_at(mask, 0) + pow2(
                    (32 - server_cidr.prefix_len) as nat,
                ) == 0x1_0000_0000)
                &&& config.gateway matches Some(gateway) ==> holds_address(
                    option_in(options, 3),
                    gateway,
                )
                &&& servers.len() > 0 ==> (option_in(options, 6) matches Some(data) && data.len()
                    == 4 * servers.len() && forall|i: int|
                    0 <= i < servers.len() ==> bits_at(data, 4 * i) == (#[trigger] servers[i]).bits)
            }
        }),
{
    reply_is_readable(config, server_cidr, request, reply);
    crate::wire::subnet_laws::special_addresses_of_a_subnet(server_cidr);
    let servers = listed_addresses(config.dns_servers);
    lemma_be32_round_trip(server_cidr.address.bits);
    lemma_be32_round_trip(server_cidr.mask().bits);
    if let Some(gateway) = config.gateway {
        lemma_be32_round_trip(gateway.bits);
    }
    if let Some(duration) = reply.lease_duration {
        lemma_be32_round_trip(lease_secs(duration) as u32);
    }
    lemma_addresses_in_order(servers, 0);
    assert forall|i: int| 0 <= i < servers.len() implies bits_at(address_bytes(servers), 4 * i) == (
    #[trigger] servers[i]).bits by {
        lemma_addresses_in_order(servers, i);
    }
}

/// The fixed part of a reply is where clients look for it: it is a server's reply to an
/// Ethernet client, of the client's transaction and flags, with the addresses and the
/// hardware address in their places, and nothing in the others. It is at least 300 bytes
/// long.
pub proof fn fixed_part_of_a_reply(
    config: DhcpServerConfig,
    server_cidr: Ipv4Cidr,
    request: DhcpRequestView,
    reply: Reply,
)
    requires
        0 <= request.xid <= u32::MAX,
        reply.message_type is Offer || reply.message_type is Ack || reply.message_type is Nak,
    ensures
        ({
            let message = reply_message(config, server_cidr, request, reply);
            &&& message.len() >= 300
            &&& message[0] == 2
            &&& message[1] == 1
            &&& message[2] == 6
            &&& message[3] == 0
            &&& bits_at(message, 4) == request.xid
            &&& message[8] == 0 && message[9] == 0
            &&& message[10] * 256 + message[11] == request.flags.bits
            &&& bits_at(message, 12) == reply.ciaddr.bits
            &&& bits_at(message, 16) == reply.yiaddr.bits
            &&& bits_at(message, 20) == 0
            &&& bits_at(message, 24) == 0
            &&& EthernetAddress(
                message[28],
                message[29],
                message[30],
                message[31],
                message[32],
                message[33],
            ) == request.chaddr
            &&& forall|i: int| 34 <= i < 236 ==> #[trigger] message[i] == 0
            &&& bits_at(message, 236) == 0x6382_5363
        }),
{
    let message = reply_message(config, server_cidr, request, reply);
    let header = reply_header(
        reply.message_type,
        request.xid,
        request.flags,
        reply.ciaddr,
        reply.yiaddr,
        request.chaddr,
    );
    lemma_header(config, server_cidr, request, reply);
    assert forall|i: int| 0 <= i < 240 implies #[trigger] message[i] == header[i] by {}
    assert(bits_at(message, 4) == u32_at(header, 4));
    assert(bits_at(message, 12) == u32_at(header, 12));
    assert(bits_at(message, 16) == u32_at(header, 16));
    assert(bits_at(message, 236) == u32_at(header, 236));
}

/// What the server reads of a message of a client: the transaction at 4, whether the reply
/// has to be broadcast in the highest bit at 10, the address the client has at 12, its
/// hardware address at 28, and its options from 240 on.
pub proof fn fields_of_a_request(packet: DhcpPacket<'_>)
    requires
        packet.bytes@.len() >= 240,
    ensures
        ({
            let bytes = packet.bytes@;
            let options = bytes.skip(240);
            let kind = option_in(options, 53);
            &&& packet@.xid == bits_at(bytes, 4)
            &&& packet@.flags.bits == if bytes[10] >= 0x80 {
                0x8000int
            } else {
                0
            }
            &&& packet@.ciaddr.bits == bits_at(bytes, 12)
            &&& packet@.chaddr == EthernetAddress(
                bytes[28],
                bytes[29],
                bytes[30],
                bytes[31],
                bytes[32],
                bytes[33],
            )
            &&& packet@.client_id == option_in(options, 61)
            &&& packet@.requested_ip == option_in(options, 50)
            &&& packet@.server_id == option_in(options, 54)
            &&& packet@.lease_time == option_in(options, 51)
            &&& packet.is_client_message() <==> bits_at(bytes, 236) == 0x6382_5363 && bytes[0] == 1
                && bytes[1] == 1 && bytes[2] == 6 && bits_at(bytes, 24) == 0 && kind is Some
                && kind->0.len() == 1
            &&& packet.is_client_message() ==> packet.of_type() == Some(
                match kind->0[0] {
                    1 => DhcpMessageType::Discover,
                    2 => DhcpMessageType::Offer,
                    3 => DhcpMessageType::Request,
                    4 => DhcpMessageType::Decline,
                    5 => DhcpMessageType::Ack,
                    6 => DhcpMessageType::Nak,
                    7 => DhcpMessageType::Release,
                    8 => DhcpMessageType::Inform,
                    _ => DhcpMessageType::Unknown(kind->0[0]),
                },
            )
        }),
{
}

/// The first of a kind among options is found, wherever it is.
proof fn lemma_option_among(
    options: Seq<DhcpOption<'static>>,
    rest: Seq<u8>,
    index: int,
)
    requires
        0 <= index < options.len(),
        options[index].kind != 0,
        options[index].kind != 255,
        are_not_of_kind(options.take(index), options[index].kind),
        forall|i: int| 0 <= i < options.len() ==> (#[trigger] options[i]).data@.len() <= 255,
    ensures
        option_in(options_bytes(options) + rest, options[index].kind) == Some(options[index].data@),
    decreases options.len(),
{
    let last = options.last();
    let after = option_bytes(last.kind, last.data@) + rest;
    let front = options.drop_last();
    assert(options_bytes(options) + rest =~= options_bytes(front) + after);
    assert forall|i: int| 0 <= i < front.len() implies (#[trigger] front[i]).data@.len() <= 255 by {
        assert(front[i] == options[i]);
    }
    if index < front.len() {
        assert(front.take(index) =~= options.take(index));
        assert(front[index] == options[index]);
        lemma_option_among(front, after, index);
    } else {
        assert(front =~= options.take(index));
        lemma_options_passed_over(front, after, last.kind);
        option_round_trip(last.kind, last.data@, rest, last.kind);
    }
}

/// Whether a kind of option is one that the server itself may send, or none at all.
pub open spec fn is_own_kind(kind: u8) -> bool {
    kind == 0 || kind == 255 || kind == 53 || kind == 54 || kind == 51 || kind == 1 || kind == 3
        || kind == 6
}

/// A configured option is found behind the rest of the configuration.
proof fn lemma_configured_option(
    config: DhcpServerConfig,
    server_cidr: Ipv4Cidr,
    rest: Seq<u8>,
    index: int,
)
    requires
        listed_addresses(config.dns_servers).len() <= 63,
        forall|i: int|
            0 <= i < config.outgoing_options@.len() ==> (
            #[trigger] config.outgoing_options@[i]).data@.len() <= 255,
        0 <= index < config.outgoing_options@.len(),
        are_not_of_kind(
            config.outgoing_options@.take(index),
            config.outgoing_options@[index].kind,
        ),
        !is_own_kind(config.outgoing_options@[index].kind),
    ensures
        option_in(
            config_options(config, server_cidr) + rest,
            config.outgoing_options@[index].kind,
        ) == Some(config.outgoing_options@[index].data@),
{
    let kind = config.outgoing_options@[index].kind;
    let servers = listed_addresses(config.dns_servers);
    let mask_data = server_cidr.mask().octets();
    let router = match config.gateway {
        Some(gateway) => option_bytes(OPT_ROUTER, gateway.octets()),
        None => Seq::empty(),
    };
    let dns = if servers.len() > 0 {
        option_bytes(OPT_DOMAIN_NAME_SERVER, address_bytes(servers))
    } else {
        Seq::empty()
    };
    let extra = options_bytes(config.outgoing_options@) + rest;
    let after_router = dns + extra;
    let after_mask = router + after_router;
    assert(config_options(config, server_cidr) + rest =~= option_bytes(OPT_SUBNET_MASK, mask_data)
        + after_mask);
    option_round_trip(OPT_SUBNET_MASK, mask_data, after_mask, kind);
    match config.gateway {
        Some(gateway) => {
            option_round_trip(OPT_ROUTER, gateway.octets(), after_router, kind);
        },
        None => {
            assert(after_mask =~= after_router);
        },
    }
    if servers.len() > 0 {
        super::dhcpv4_fit::lemma_address_bytes_len(servers);
        option_round_trip(OPT_DOMAIN_NAME_SERVER, address_bytes(servers), extra, kind);
    } else {
        assert(after_router =~= extra);
    }
    lemma_option_among(config.outgoing_options@, rest, index);
}

/// A client reads each configured option as it was configured, the first of a kind, in every
/// reply but a refusal, unless the server itself sends one of the kind.
pub proof fn configured_options_are_sent(
    config: DhcpServerConfig,
    server_cidr: Ipv4Cidr,
    request: DhcpRequestView,
    reply: Reply,
    index: int,
)
    requires
        reply_fits(config, server_cidr, request, reply),
        listed_addresses(config.dns_servers).len() <= crate::config::DHCP_MAX_DNS_SERVER_COUNT,
        0 <= request.xid <= u32::MAX,
        !(reply.message_type is Nak),
        0 <= index < config.outgoing_options@.len(),
        are_not_of_kind(
            config.outgoing_options@.take(index),
            config.outgoing_options@[index].kind,
        ),
        !is_own_kind(config.outgoing_options@[index].kind),
    ensures
        option_in(
            reply_message(config, server_cidr, request, reply).skip(240),
            config.outgoing_options@[index].kind,
        ) == Some(config.outgoing_options@[index].data@),
{
    let message = reply_message(config, server_cidr, request, reply);
    let unpadded = unpadded_message(config, server_cidr, request, reply);
    let padding = if unpadded.len() < MIN_MESSAGE_SIZE {
        zeros(MIN_MESSAGE_SIZE - unpadded.len())
    } else {
        Seq::empty()
    };
    let text = match reply.message {
        Some(message) => option_bytes(OPT_MESSAGE, encode_utf8(message@)),
        None => Seq::empty(),
    };
    let behind = text + (seq![OPT_END] + padding);
    let rest = config_options(config, server_cidr) + behind;
    lemma_header(config, server_cidr, request, reply);
    assert(message.skip(240) =~= leading_options(server_cidr, reply) + rest);
    lemma_leading_options(server_cidr, reply, rest);
    lemma_configured_option(config, server_cidr, behind, index);
}

} // verus!

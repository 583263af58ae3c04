//! Which configurations of the DHCPv4 server fit in its replies.

use super::dhcpv4_server::{
    address_bytes, config_options, dns_server_count, leading_options, listed_addresses, nak,
    options_bytes, reply_fits, reply_options, server_step, DhcpServerConfig, Reply,
};
use super::dhcpv4_leases::LeaseView;
use crate::config::PACKET_BUF_SIZE;
use crate::time::Instant;
use crate::wire::dhcpv4::{
    DhcpMessageType, DhcpRequestView, DHCP_HEADER_LEN,
};
use crate::wire::{
    Ipv4Address, Ipv4Cidr, IPV4_HEADER_LEN, LINK_HEADER_LEN, UDP_HEADER_LEN,
};
use vstd::prelude::*;
use vstd::utf8::{encode_utf8, is_ascii_chars, is_ascii_chars_encode_utf8};

verus! {

/// The longest DHCP message that fits in a packet.
pub const MAX_MESSAGE_SIZE: usize = PACKET_BUF_SIZE - LINK_HEADER_LEN - IPV4_HEADER_LEN
    - UDP_HEADER_LEN;

/// How much of a reply is taken up by what is always the same size: the header, the
/// message type, the server identifier, the lease time, the subnet mask and the end
/// marker.
pub const FIXED_SIZE: usize = DHCP_HEADER_LEN + 22;

/// How many bytes of a reply are taken up by the gateway.
pub open spec fn gateway_len(config: DhcpServerConfig) -> nat {
    if config.gateway is Some {
        6
    } else {
        0
    }
}

/// How many bytes of a reply are taken up by the DNS servers.
pub open spec fn dns_len(config: DhcpServerConfig) -> nat {
    let count = listed_addresses(config.dns_servers).len();
    if count > 0 {
        2 + 4 * count
    } else {
        0
    }
}

/// Whether every reply fits, whatever a client asks for: the data of each outgoing
/// option fits in its length byte, and all the options in a packet.
pub open spec fn config_fits(config: DhcpServerConfig) -> bool {
    &&& forall|i: int|
        0 <= i < config.outgoing_options@.len() ==> (
        #[trigger] config.outgoing_options@[i]).data@.len() <= 255
    &&& FIXED_SIZE + gateway_len(config) + dns_len(config) + options_bytes(
        config.outgoing_options@,
    ).len() <= MAX_MESSAGE_SIZE
}

/// The length of a list of addresses.
pub proof fn lemma_address_bytes_len(addrs: Seq<Ipv4Address>)
    ensures
        address_bytes(addrs).len() == 4 * addrs.len(),
    decreases addrs.len(),
{
    if addrs.len() > 0 {
        lemma_address_bytes_len(addrs.drop_last());
    }
}

/// The length of the first options is at least that of fewer of them.
proof fn lemma_options_bytes_grow(config: DhcpServerConfig, n: int)
    requires
        0 <= n <= config.outgoing_options@.len(),
    ensures
        options_bytes(config.outgoing_options@.take(n)).len() <= options_bytes(
            config.outgoing_options@,
        ).len(),
    decreases config.outgoing_options@.len() - n,
{
    let options = config.outgoing_options@;
    if n < options.len() {
        assert(options.take(n + 1).drop_last() =~= options.take(n));
        lemma_options_bytes_grow(config, n + 1);
    } else {
        assert(options.take(n) =~= options);
    }
}

/// A reason for a refusal is short.
proof fn lemma_reason_is_short(reason: &'static str)
    requires
        is_ascii_chars(reason@),
        reason@.len() <= 255,
    ensures
        encode_utf8(reason@).len() <= 255,
{
    is_ascii_chars_encode_utf8(reason@);
}

/// Every reason the server gives for a refusal is short.
proof fn lemma_reasons_are_short()
    ensures
        encode_utf8("requested address not on this network"@).len() <= 255,
        encode_utf8("requested address does not match the lease"@).len() <= 255,
        encode_utf8("requested address is not available"@).len() <= 255,
        encode_utf8("requested address is in use"@).len() <= 255,
        encode_utf8("no free leases"@).len() <= 255,
{
    reveal_strlit("requested address not on this network");
    reveal_strlit("requested address does not match the lease");
    reveal_strlit("requested address is not available");
    reveal_strlit("requested address is in use");
    reveal_strlit("no free leases");
    lemma_reason_is_short("requested address not on this network");
    lemma_reason_is_short("requested address does not match the lease");
    lemma_reason_is_short("requested address is not available");
    lemma_reason_is_short("requested address is in use");
    lemma_reason_is_short("no free leases");
}

/// A refusal always fits.
proof fn lemma_nak_fits(
    config: DhcpServerConfig,
    server_cidr: Ipv4Cidr,
    request: DhcpRequestView,
    reason: &'static str,
)
    requires
        encode_utf8(reason@).len() <= 255,
    ensures
        reply_fits(config, server_cidr, request, nak(reason)),
{
    assert(leading_options(server_cidr, nak(reason)).len() == 9);
}

/// An offer or an acknowledgement fits if the configuration does.
proof fn lemma_configuration_fits(
    config: DhcpServerConfig,
    server_cidr: Ipv4Cidr,
    request: DhcpRequestView,
    reply: Reply,
)
    requires
        config_fits(config),
        reply.message_type != DhcpMessageType::Nak,
        reply.message is None,
    ensures
        reply_fits(config, server_cidr, request, reply),
{
    lemma_address_bytes_len(listed_addresses(config.dns_servers));
    assert(leading_options(server_cidr, reply).len() <= 15);
    assert(config_options(config, server_cidr).len() == 6 + gateway_len(config) + dns_len(config)
        + options_bytes(config.outgoing_options@).len());
    assert(reply_options(config, server_cidr, reply).len() == leading_options(
        server_cidr,
        reply,
    ).len() + config_options(config, server_cidr).len() + 1);
}

/// With a configuration that fits, every reply the server ever gives fits in a
/// packet, whatever its leases are and whatever the client asks for.
pub proof fn replies_fit(
    config: DhcpServerConfig,
    leases: Seq<LeaseView>,
    now: Instant,
    server_cidr: Ipv4Cidr,
    message_type: DhcpMessageType,
    request: DhcpRequestView,
)
    requires
        config_fits(config),
    ensures
        server_step(config, leases, now, server_cidr, message_type, request).reply matches Some(
            reply,
        ) ==> reply_fits(config, server_cidr, request, reply),
{
    lemma_reasons_are_short();
    if let Some(reply) = server_step(
        config,
        leases,
        now,
        server_cidr,
        message_type,
        request,
    ).reply {
        match reply.message {
            Some(reason) => {
                assert(reply == nak(reason));
                lemma_nak_fits(config, server_cidr, request, reason);
            },
            None => {
                lemma_configuration_fits(config, server_cidr, request, reply);
            },
        }
    }
}

impl DhcpServerConfig {
    /// Whether every reply fits in a packet, whatever a client asks for.
    pub fn fits(&self) -> (fits: bool)
        ensures
            fits == config_fits(*self),
    {
        let mut len: usize = FIXED_SIZE;
        if self.gateway.is_some() {
            len += 6;
        }
        let dns: usize = dns_server_count(self);
        if dns > 0 {
            len += 2 + 4 * dns;
        }
        let ghost before = len;
        let options = self.outgoing_options;
        let mut index: usize = 0;
        assert(options@.take(0) =~= Seq::empty());
        while index < options.len()
            invariant
                index <= options@.len(),
                options@ == self.outgoing_options@,
                before == FIXED_SIZE + gateway_len(*self) + dns_len(*self),
                len == before + options_bytes(options@.take(index as int)).len(),
                len <= MAX_MESSAGE_SIZE,
                forall|i: int|
                    0 <= i < index ==> (#[trigger] self.outgoing_options@[i]).data@.len() <= 255,
            decreases options@.len() - index,
        {
            let option = options[index];
            if option.data.len() > 255 {
                return false;
            }
            assert(options@.take(index + 1).drop_last() =~= options@.take(index as int));
            len += 2 + option.data.len();
            index += 1;
            if len > MAX_MESSAGE_SIZE {
                proof {
                    lemma_options_bytes_grow(*self, index as int);
                }
                return false;
            }
        }
        assert(options@.take(index as int) =~= options@);
        true
    }
}

} // verus!

//! Where things are in packets.

use super::bytes::{be32, lemma_be16_round_trip, lemma_be32_round_trip, u16_at, u32_at};
use super::checksum::{internet_checksum, sum_is_intact, word_sum};
use super::echo::{
    echo_ipv4_packet, echo_ipv6_packet, echo_message, echo_reply_from, echo_reply_in, le64,
    le64_round_trip, lemma_ipv6_octets,
};
use super::ethernet::{ethernet_header, frame_ethertype, EthernetProtocol};
use super::hardware::{EthernetAddress, HardwareAddress, Ieee802154Address};
use super::ip::{IpAddress, IpProtocol, IpVersion};
use super::ip_packet::{
    ip_headers, ipv4_header, ipv4_payload, ipv6_header, ipv6_payload, packet_version,
};
use super::ipv4::Ipv4Address;
use super::ipv6::Ipv6Address;
use super::ndisc::{
    ipv6_pseudo_header, link_layer_addr, link_layer_addr_among, options_in, prefix_information,
    prefixes_among, router_solicit, NdiscPrefixInfoFlags, NdiscRouterFlags, RouterAdvert,
};
use super::udp::{udp_checksum, udp_datagram, udp_in, udp_pseudo_header};
use crate::iface::Medium;
use vstd::prelude::*;

verus! {

/// The 16 bits at `at`, the most significant byte first.
pub open spec fn half_bits_at(bytes: Seq<u8>, at: int) -> int {
    bytes[at] * 0x100 + bytes[at + 1]
}

/// The 32 bits at `at`, the most significant byte first.
pub open spec fn bits_at(bytes: Seq<u8>, at: int) -> int {
    bytes[at] * 0x100_0000 + bytes[at + 1] * 0x1_0000 + bytes[at + 2] * 0x100 + bytes[at + 3]
}

/// The 128 bits at `at`, the most significant byte first.
pub open spec fn address_bits_at(bytes: Seq<u8>, at: int) -> int {
    bits_at(bytes, at) * 0x1_0000_0000_0000_0000_0000_0000 + bits_at(bytes, at + 4)
        * 0x1_0000_0000_0000_0000 + bits_at(bytes, at + 8) * 0x1_0000_0000 + bits_at(bytes, at + 12)
}

/// The six bytes at `at` as an Ethernet address.
pub open spec fn ethernet_at(bytes: Seq<u8>, at: int) -> EthernetAddress {
    EthernetAddress(
        bytes[at],
        bytes[at + 1],
        bytes[at + 2],
        bytes[at + 3],
        bytes[at + 4],
        bytes[at + 5],
    )
}

/// The bytes of an integer stand for it.
proof fn lemma_be32(value: u32)
    ensures
        be32(value as int).len() == 4,
        bits_at(be32(value as int), 0) == value,
{
    lemma_be32_round_trip(value);
    assert(bits_at(be32(value as int), 0) == u32_at(be32(value as int), 0));
}

/// The bytes of an IPv6 address stand for it.
proof fn lemma_address_at(addr: Ipv6Address, bytes: Seq<u8>, at: int)
    requires
        0 <= at,
        at + 16 <= bytes.len(),
        bytes.subrange(at, at + 16) == addr.octets(),
    ensures
        address_bits_at(bytes, at) == addr.bits,
{
    lemma_ipv6_octets(addr, bytes, at);
}

/// What is in front is read from the front.
pub proof fn lemma_bits_of_front(bytes: Seq<u8>, front: Seq<u8>, at: int)
    requires
        0 <= at,
        at + 16 <= front.len() <= bytes.len(),
        forall|i: int| 0 <= i < front.len() ==> #[trigger] bytes[i] == front[i],
    ensures
        address_bits_at(bytes, at) == address_bits_at(front, at),
{
    assert(bits_at(bytes, at) == bits_at(front, at));
    assert(bits_at(bytes, at + 4) == bits_at(front, at + 4));
    assert(bits_at(bytes, at + 8) == bits_at(front, at + 8));
    assert(bits_at(bytes, at + 12) == bits_at(front, at + 12));
}

/// A frame has the address it goes to first, then the one it comes from, then the
/// ethertype, 14 bytes in all, and what it carries behind.
pub proof fn fields_of_a_frame(
    dst: EthernetAddress,
    src: EthernetAddress,
    ethertype: EthernetProtocol,
    payload: Seq<u8>,
)
    ensures
        ({
            let frame = ethernet_header(dst, src, ethertype) + payload;
            &&& frame.len() == 14 + payload.len()
            &&& ethernet_at(frame, 0) == dst
            &&& ethernet_at(frame, 6) == src
            &&& half_bits_at(frame, 12) == ethertype.0
            &&& frame.skip(14) == payload
        }),
        payload.len() < 14 ==> frame_ethertype(payload) is None,
        payload.len() >= 14 ==> (frame_ethertype(payload) matches Some(found) && found.0
            == half_bits_at(payload, 12)),
{
    let frame = ethernet_header(dst, src, ethertype) + payload;
    assert(frame.skip(14) =~= payload);
}

/// An IPv4 header is 20 bytes long, is not to be fragmented, and has the length of the
/// packet, the hop limit, the protocol and the addresses in their places. With offload its
/// checksum is left clear.
pub proof fn fields_of_an_ipv4_header(
    src: Ipv4Address,
    dst: Ipv4Address,
    protocol: IpProtocol,
    hop_limit: u8,
    payload_len: int,
    offload: bool,
)
    requires
        0 <= payload_len <= 0xffff - 20,
    ensures
        ({
            let header = ipv4_header(src, dst, protocol, hop_limit, payload_len, offload);
            &&& header.len() == 20
            &&& header[0] == 0x45
            &&& header[1] == 0
            &&& half_bits_at(header, 2) == 20 + payload_len
            &&& half_bits_at(header, 4) == 0
            &&& half_bits_at(header, 6) == 0x4000
            &&& header[8] == hop_limit
            &&& header[9] == protocol.0
            &&& offload ==> half_bits_at(header, 10) == 0
            &&& bits_at(header, 12) == src.bits
            &&& bits_at(header, 16) == dst.bits
        }),
{
    let header = ipv4_header(src, dst, protocol, hop_limit, payload_len, offload);
    lemma_be16_round_trip((20 + payload_len) as u16);
    lemma_be32(src.bits);
    lemma_be32(dst.bits);
    assert(bits_at(header, 12) == bits_at(src.octets(), 0));
    assert(bits_at(header, 16) == bits_at(dst.octets(), 0));
}

/// An IPv6 header is 40 bytes long and has the length of what follows, the protocol, the hop
/// limit and the addresses in their places.
pub proof fn fields_of_an_ipv6_header(
    src: Ipv6Address,
    dst: Ipv6Address,
    protocol: IpProtocol,
    hop_limit: u8,
    payload_len: int,
)
    requires
        0 <= payload_len <= 0xffff,
    ensures
        ({
            let header = ipv6_header(src, dst, protocol, hop_limit, payload_len);
            &&& header.len() == 40
            &&& bits_at(header, 0) == 0x6000_0000
            &&& half_bits_at(header, 4) == payload_len
            &&& header[6] == protocol.0
            &&& header[7] == hop_limit
            &&& address_bits_at(header, 8) == src.bits
            &&& address_bits_at(header, 24) == dst.bits
        }),
{
    let header = ipv6_header(src, dst, protocol, hop_limit, payload_len);
    lemma_be16_round_trip(payload_len as u16);
    assert(header.subrange(8, 24) =~= src.octets());
    assert(header.subrange(24, 40) =~= dst.octets());
    lemma_address_at(src, header, 8);
    lemma_address_at(dst, header, 24);
}

/// The destination and protocol of an IP packet are read from a header that is all there and
/// whose lengths fit in the packet: of version 4, at 16 and 9, of version 6, at 24 and 6.
pub proof fn destination_of_a_packet(packet: Seq<u8>)
    ensures
        ({
            let v4 = packet.len() >= 20 && packet[0] / 16 == 4 && packet[0] % 16 >= 5
                && half_bits_at(packet, 2) >= (packet[0] % 16) * 4 && half_bits_at(packet, 2)
                <= packet.len();
            let v6 = packet.len() >= 40 && packet[0] / 16 == 6 && half_bits_at(packet, 4) + 40
                <= packet.len();
            &&& ip_headers(packet) is Some <==> v4 || v6
            &&& v4 ==> (ip_headers(packet) matches Some((IpAddress::Ipv4(dst), protocol))
                && dst.bits == bits_at(packet, 16) && protocol.0 == packet[9])
            &&& v6 ==> (ip_headers(packet) matches Some((IpAddress::Ipv6(dst), protocol))
                && dst.bits == address_bits_at(packet, 24) && protocol.0 == packet[6])
        }),
{
}

/// A datagram has its ports, its length and its checksum in eight bytes, and then what it
/// carries. With offload the checksum is left clear, and without it never is. The checksum
/// covers the addresses, the protocol and the length as well.
pub proof fn fields_of_a_datagram(
    src: Ipv4Address,
    dst: Ipv4Address,
    src_port: u16,
    dst_port: u16,
    payload: Seq<u8>,
    offload: bool,
)
    requires
        payload.len() + 8 <= 0xffff,
    ensures
        ({
            let datagram = udp_datagram(src, dst, src_port, dst_port, payload, offload);
            let pseudo = udp_pseudo_header(src, dst, (8 + payload.len()) as int);
            &&& datagram.len() == 8 + payload.len()
            &&& half_bits_at(datagram, 0) == src_port
            &&& half_bits_at(datagram, 2) == dst_port
            &&& half_bits_at(datagram, 4) == 8 + payload.len()
            &&& half_bits_at(datagram, 6) == 0 <==> offload
            &&& datagram.skip(8) == payload
            &&& pseudo.len() == 12
            &&& bits_at(pseudo, 0) == src.bits
            &&& bits_at(pseudo, 4) == dst.bits
            &&& pseudo[8] == 0
            &&& pseudo[9] == 17
            &&& half_bits_at(pseudo, 10) == 8 + payload.len()
        }),
{
    let datagram = udp_datagram(src, dst, src_port, dst_port, payload, offload);
    let pseudo = udp_pseudo_header(src, dst, (8 + payload.len()) as int);
    super::udp::udp_datagram_verifies(src, dst, src_port, dst_port, payload);
    lemma_be16_round_trip(src_port);
    lemma_be16_round_trip(dst_port);
    lemma_be16_round_trip((8 + payload.len()) as u16);
    if !offload {
        lemma_be16_round_trip(udp_checksum(src, dst, src_port, dst_port, payload) as u16);
    }
    lemma_be32(src.bits);
    lemma_be32(dst.bits);
    assert(datagram.skip(8) =~= payload);
    assert(bits_at(pseudo, 0) == bits_at(src.octets(), 0));
    assert(bits_at(pseudo, 4) == bits_at(dst.octets(), 0));
}

/// Whether an IPv4 packet of the UDP protocol carries a datagram: it is no fragment, its
/// header verifies, and the datagram fits in, and verifies or has no checksum.
pub open spec fn carries_datagram(packet: Seq<u8>) -> bool {
    let header_len = (packet[0] % 16) * 4;
    let len = half_bits_at(packet, header_len + 4);
    let src = Ipv4Address { bits: bits_at(packet, 12) as u32 };
    let dst = Ipv4Address { bits: bits_at(packet, 16) as u32 };
    &&& packet.len() >= 20
    &&& packet[0] / 16 == 4
    &&& packet[9] == 17
    &&& 20 <= header_len
    &&& 8 <= len
    &&& header_len + len <= half_bits_at(packet, 2) <= packet.len()
    &&& half_bits_at(packet, 6) % 0x4000 == 0
    &&& word_sum(packet.take(header_len)) > 0
    &&& word_sum(packet.take(header_len)) % 65535 == 0
    &&& half_bits_at(packet, header_len + 6) == 0 || {
        let sum = word_sum(udp_pseudo_header(src, dst, len)) + word_sum(
            packet.subrange(header_len, header_len + len),
        );
        sum > 0 && sum % 65535 == 0
    }
}

/// A datagram is read from a packet if and only if the packet carries one, with its addresses
/// and ports, and as much payload as its length says.
pub proof fn datagram_in_a_packet(packet: Seq<u8>)
    ensures
        udp_in(packet) is Some <==> carries_datagram(packet),
        udp_in(packet) matches Some(datagram) ==> {
            let header_len = (packet[0] % 16) * 4;
            let len = half_bits_at(packet, header_len + 4);
            &&& datagram.src_addr.bits == bits_at(packet, 12)
            &&& datagram.dst_addr.bits == bits_at(packet, 16)
            &&& datagram.src_port == half_bits_at(packet, header_len)
            &&& datagram.dst_port == half_bits_at(packet, header_len + 2)
            &&& datagram.payload == packet.subrange(header_len + 8, header_len + len)
        },
{
    let header_len = (packet[0] % 16) * 4;
    let message = ipv4_payload(packet);
    let len = half_bits_at(packet, header_len + 4);
    if packet.len() >= 20 && packet[0] / 16 == 4 && 20 <= header_len && header_len + 8
        <= half_bits_at(packet, 2) <= packet.len() {
        let src = Ipv4Address { bits: bits_at(packet, 12) as u32 };
        let dst = Ipv4Address { bits: bits_at(packet, 16) as u32 };
        assert(u16_at(message, 0) == half_bits_at(packet, header_len));
        assert(u16_at(message, 2) == half_bits_at(packet, header_len + 2));
        assert(u16_at(message, 4) == len);
        assert(u16_at(message, 6) == half_bits_at(packet, header_len + 6));
        assert(message.len() == half_bits_at(packet, 2) - header_len);
        if 8 <= len <= message.len() {
            assert(message.take(len) =~= packet.subrange(header_len, header_len + len));
            assert(message.subrange(8, len) =~= packet.subrange(
                header_len + 8,
                header_len + len,
            ));
            lemma_intact(word_sum(udp_pseudo_header(src, dst, len)) + word_sum(message.take(len)));
        }
        lemma_intact(word_sum(packet.take(header_len)));
        let high = packet[6] as int;
        let low = packet[7] as int;
        let both = high * 256 + low;
        assert(both % 0x4000 == 0 <==> high % 64 == 0 && low == 0);
        assert(high % 64 == 0 <==> (high / 32) % 2 == 0 && high % 32 == 0);
    }
}

/// Data is intact if and only if its words add up to a multiple of 65535, and not to zero.
/// The checksum makes it so, and is all ones only if the words add up to zero. A byte left
/// over at the end is the high half of a word.
pub proof fn checksum_makes_the_sum_intact(sum: nat, bytes: Seq<u8>, last: u8)
    ensures
        sum_is_intact(sum) <==> sum > 0 && sum % 65535 == 0,
        0 <= internet_checksum(sum) <= 65535,
        (sum + internet_checksum(sum)) % 65535 == 0,
        sum + internet_checksum(sum) > 0,
        internet_checksum(sum) == 65535 <==> sum == 0,
        word_sum(Seq::empty()) == 0,
        word_sum(seq![last]) == last * 256,
        bytes.len() >= 2 ==> word_sum(bytes) == half_bits_at(bytes, 0) + word_sum(bytes.skip(2)),
{
    super::checksum::lemma_checksum_is_intact(sum);
    let total = (sum + internet_checksum(sum)) as nat;
    lemma_intact(sum);
    lemma_intact(total);
}

/// Data is intact if its words add up to a multiple of 65535.
proof fn lemma_intact(sum: nat)
    ensures
        sum_is_intact(sum) <==> sum > 0 && sum % 65535 == 0,
{
    if sum > 0 {
        let before = (sum - 1) as nat;
        let r = before % 65535;
        let q = before / 65535;
        assert(before == q * 65535 + r);
        if r == 65534 {
            assert(sum == (q + 1) * 65535);
            assert(sum % 65535 == 0) by (nonlinear_arith)
                requires
                    sum == (q + 1) * 65535,
            ;
        } else {
            assert(sum == q * 65535 + (r + 1));
            assert(sum % 65535 == r + 1) by (nonlinear_arith)
                requires
                    sum == q * 65535 + (r + 1),
                    r + 1 < 65535,
            ;
        }
    }
}

/// What the checksum of an ICMPv6 message covers besides it: both addresses, the length, and
/// the protocol.
pub proof fn fields_of_an_ipv6_pseudo_header(src: Ipv6Address, dst: Ipv6Address, len: u32)
    ensures
        ({
            let pseudo = ipv6_pseudo_header(src, dst, len as int);
            &&& pseudo.len() == 40
            &&& address_bits_at(pseudo, 0) == src.bits
            &&& address_bits_at(pseudo, 16) == dst.bits
            &&& bits_at(pseudo, 32) == len
            &&& bits_at(pseudo, 36) == 58
        }),
{
    let pseudo = ipv6_pseudo_header(src, dst, len as int);
    lemma_be32(len);
    assert(pseudo.subrange(0, 16) =~= src.octets());
    assert(pseudo.subrange(16, 32) =~= dst.octets());
    lemma_address_at(src, pseudo, 0);
    lemma_address_at(dst, pseudo, 16);
    assert(bits_at(pseudo, 32) == bits_at(be32(len as int), 0));
}

/// A router solicitation is of type 133, has four reserved bytes, and then the link-layer
/// address of its sender, if that has 48 or 64 bits, in an option of one or two units of
/// eight bytes.
pub proof fn fields_of_a_router_solicitation(
    src: Ipv6Address,
    dst: Ipv6Address,
    hardware_addr: HardwareAddress,
    offload: bool,
)
    ensures
        ({
            let message = router_solicit(src, dst, hardware_addr, offload);
            &&& message[0] == 133
            &&& message[1] == 0
            &&& offload ==> half_bits_at(message, 2) == 0
            &&& bits_at(message, 4) == 0
            &&& match hardware_addr {
                HardwareAddress::Ethernet(addr) => message.len() == 16 && message[8] == 1
                    && message[9] == 1 && ethernet_at(message, 10) == addr,
                HardwareAddress::Ieee802154(Ieee802154Address::Extended(addr)) => message.len()
                    == 24 && message[8] == 1 && message[9] == 2 && bits_at(message, 10)
                    * 0x1_0000_0000 + bits_at(message, 14) == addr && (forall|i: int|
                    18 <= i < 24 ==> #[trigger] message[i] == 0),
                _ => message.len() == 8,
            }
        }),
{
    let message = router_solicit(src, dst, hardware_addr, offload);
    if let HardwareAddress::Ieee802154(Ieee802154Address::Extended(addr)) = hardware_addr {
        let high = (addr / 0x1_0000_0000) as u32;
        let low = (addr % 0x1_0000_0000) as u32;
        lemma_be32(high);
        lemma_be32(low);
        assert(bits_at(message, 10) == bits_at(be32(high as int), 0));
        assert(bits_at(message, 14) == bits_at(be32(low as int), 0));
    }
}

/// A prefix information option has the length of the prefix at 2, its flags in the two highest
/// bits at 3, its valid and then its preferred lifetime in seconds at 4 and 8, and the prefix
/// at 16.
pub proof fn fields_of_a_prefix_option(option: Seq<u8>)
    requires
        option.len() >= 32,
    ensures
        ({
            let info = prefix_information(option);
            &&& info.prefix_len == option[2]
            &&& (info.flags.bits / 64) % 2 == 1 <==> (option[3] / 64) % 2 == 1
            &&& info.flags.bits >= 128 <==> option[3] >= 128
            &&& info.flags.bits % 64 == 0
            &&& info.valid_lifetime.micros == bits_at(option, 4) * 1_000_000
            &&& info.preferred_lifetime.micros == bits_at(option, 8) * 1_000_000
            &&& info.prefix.bits == address_bits_at(option, 16)
        }),
{
}

/// A router advertisement has its flags in the two highest bits at 5, the lifetime of the
/// router in seconds at 6, and its options from 16 on.
pub proof fn fields_of_an_advertisement(advert: RouterAdvert<'_>)
    requires
        advert.bytes@.len() >= 16,
    ensures
        advert.flags().bits >= 0x80 <==> advert.bytes@[5] >= 0x80,
        (advert.flags().bits % 0x80) >= 0x40 <==> (advert.bytes@[5] % 0x80) >= 0x40,
        advert.flags().bits % 0x40 == 0,
        advert.lifetime().micros == half_bits_at(advert.bytes@, 6) * 1_000_000,
        advert.option_list() == options_in(advert.bytes@.skip(16)),
{
}

/// Options are as many units of eight bytes long as their second byte says. Each is read
/// behind the one before, and all of them have to be whole, a prefix information option at
/// least four units long.
pub proof fn options_of_an_advertisement(bytes: Seq<u8>)
    ensures
        bytes.len() == 0 ==> (options_in(bytes) matches Some(options) && options.len() == 0),
        0 < bytes.len() < 8 ==> options_in(bytes) is None,
        bytes.len() >= 8 ==> {
            let len = bytes[1] * 8;
            let whole = 8 <= len <= bytes.len() && (bytes[0] == 3 ==> len >= 32);
            &&& options_in(bytes) is Some <==> whole && options_in(bytes.skip(len)) is Some
            &&& options_in(bytes) matches Some(options) ==> {
                &&& options.len() > 0
                &&& options[0] == bytes.take(len)
                &&& options.skip(1) == options_in(bytes.skip(len))->0
            }
        },
{
    if bytes.len() >= 8 && options_in(bytes) is Some {
        let options = options_in(bytes)->0;
        assert(options.skip(1) =~= options_in(bytes.skip(bytes[1] * 8))->0);
    }
}

/// The prefixes of an advertisement are those of its options of type 3, in order, and the
/// link-layer address is that of its last option of type 1.
pub proof fn contents_of_the_options(options: Seq<Seq<u8>>, otherwise: Option<Seq<u8>>)
    ensures
        options.len() == 0 ==> prefixes_among(options).len() == 0 && link_layer_addr_among(
            options,
            otherwise,
        ) == otherwise,
        options.len() > 0 && options[0][0] == 3 ==> prefixes_among(options).len() == 1
            + prefixes_among(options.skip(1)).len() && prefixes_among(options)[0]
            == prefix_information(options[0]) && prefixes_among(options).skip(1)
            == prefixes_among(options.skip(1)),
        options.len() > 0 && options[0][0] != 3 ==> prefixes_among(options) == prefixes_among(
            options.skip(1),
        ),
        options.len() > 0 && options[0][0] == 1 ==> link_layer_addr_among(options, otherwise)
            == link_layer_addr_among(options.skip(1), Some(options[0].skip(2))),
        options.len() > 0 && options[0][0] != 1 ==> link_layer_addr_among(options, otherwise)
            == link_layer_addr_among(options.skip(1), otherwise),
{
    if options.len() > 0 && options[0][0] == 3 {
        assert(prefixes_among(options).skip(1) =~= prefixes_among(options.skip(1)));
    }
}

/// A link-layer address is the first six bytes on Ethernet, the first eight on IEEE 802.15.4,
/// and none where there are no link-layer addresses, or not enough bytes.
pub proof fn link_layer_address_of_a_medium(data: Seq<u8>)
    ensures
        link_layer_addr(data, Medium::Ip) is None,
        link_layer_addr(data, Medium::Ethernet) is Some <==> data.len() >= 6,
        data.len() >= 6 ==> link_layer_addr(data, Medium::Ethernet) == Some(
            HardwareAddress::Ethernet(ethernet_at(data, 0)),
        ),
        link_layer_addr(data, Medium::Ieee802154) is Some <==> data.len() >= 8,
        data.len() >= 8 ==> (link_layer_addr(data, Medium::Ieee802154) matches Some(
            HardwareAddress::Ieee802154(Ieee802154Address::Extended(addr)),
        ) && addr == bits_at(data, 0) * 0x1_0000_0000 + bits_at(data, 4)),
{
}

/// The interface identifier of an Ethernet address has `ff:fe` in the middle and the second
/// lowest bit of the first byte inverted, that of a 64-bit address only the latter. Other
/// addresses have none.
pub proof fn interface_identifiers(hardware_addr: HardwareAddress)
    ensures
        match hardware_addr {
            HardwareAddress::Ethernet(EthernetAddress(a, b, c, d, e, f)) => hardware_addr.eui_64()
                == Some(
                (if (a / 2) % 2 == 1 {
                    a - 2
                } else {
                    a + 2
                }) * 0x100_0000_0000_0000 + b * 0x1_0000_0000_0000 + c * 0x100_0000_0000
                    + 0xff_fe00_0000 + d * 0x1_0000 + e * 0x100 + f,
            ),
            HardwareAddress::Ieee802154(Ieee802154Address::Extended(addr)) => hardware_addr.eui_64()
                == Some(
                if (addr / 0x200_0000_0000_0000) % 2 == 1 {
                    addr - 0x200_0000_0000_0000
                } else {
                    addr + 0x200_0000_0000_0000
                },
            ),
            _ => hardware_addr.eui_64() is None,
        },
        match hardware_addr {
            HardwareAddress::Ip => hardware_addr.used_on() == Medium::Ip
                && !hardware_addr.unicast(),
            HardwareAddress::Ethernet(addr) => hardware_addr.used_on() == Medium::Ethernet && (
            hardware_addr.unicast() <==> addr.0 % 2 == 0),
            HardwareAddress::Ieee802154(addr) => hardware_addr.used_on() == Medium::Ieee802154 && (
            hardware_addr.unicast() <==> addr != Ieee802154Address::Absent && addr
                != Ieee802154Address::Short(0xffff)),
        },
{
    match hardware_addr {
        HardwareAddress::Ethernet(EthernetAddress(a, b, c, d, e, f)) => {
            assert((a / 2) % 2 == 1 ==> (a ^ 2) == a - 2) by (bit_vector);
            assert((a / 2) % 2 != 1 ==> (a ^ 2) == a + 2) by (bit_vector);
        },
        HardwareAddress::Ieee802154(Ieee802154Address::Extended(addr)) => {
            assert((addr / 0x200_0000_0000_0000) % 2 == 1 ==> (addr ^ 0x0200_0000_0000_0000)
                == addr - 0x200_0000_0000_0000) by (bit_vector);
            assert((addr / 0x200_0000_0000_0000) % 2 != 1 ==> (addr ^ 0x0200_0000_0000_0000)
                == addr + 0x200_0000_0000_0000) by (bit_vector);
        },
        _ => {},
    }
}

/// The 64 bits at `at`, the least significant byte first.
pub open spec fn little_bits_at(bytes: Seq<u8>, at: int) -> int {
    bytes[at] + 0x100 * (bytes[at + 1] + 0x100 * (bytes[at + 2] + 0x100 * (bytes[at + 3] + 0x100 * (
    bytes[at + 4] + 0x100 * (bytes[at + 5] + 0x100 * (bytes[at + 6] + 0x100 * bytes[at + 7]))))))
}

/// An echo message has its type, the identifier, the sequence number and then 56 bytes of
/// data, which start with the time.
proof fn lemma_echo_message(pseudo: Seq<u8>, kind: u8, ident: u16, seq: u16, timestamp: u64)
    ensures
        ({
            let message = echo_message(pseudo, kind, ident, seq, timestamp);
            &&& message.len() == 64
            &&& message[0] == kind
            &&& message[1] == 0
            &&& half_bits_at(message, 4) == ident
            &&& half_bits_at(message, 6) == seq
            &&& little_bits_at(message, 8) == timestamp
            &&& forall|i: int| 16 <= i < 64 ==> #[trigger] message[i] == 0
        }),
{
    let message = echo_message(pseudo, kind, ident, seq, timestamp);
    lemma_be16_round_trip(ident);
    lemma_be16_round_trip(seq);
    le64_round_trip(timestamp);
    let time = le64(timestamp);
    assert forall|i: int| 0 <= i < 8 implies #[trigger] time[i] == message[i + 8] by {}
    assert(little_bits_at(message, 8) == little_bits_at(time, 0)) by {
        assert(time[0] == message[8]);
        assert(time[1] == message[9]);
        assert(time[2] == message[10]);
        assert(time[3] == message[11]);
        assert(time[4] == message[12]);
        assert(time[5] == message[13]);
        assert(time[6] == message[14]);
        assert(time[7] == message[15]);
    }
}

/// Whether `packet` has an echo message at `at`.
spec fn has_echo_at(
    packet: Seq<u8>,
    at: int,
    kind: u8,
    ident: u16,
    seq: u16,
    timestamp: u64,
) -> bool {
    &&& packet.len() == at + 64
    &&& packet[at] == kind
    &&& half_bits_at(packet, at + 4) == ident
    &&& half_bits_at(packet, at + 6) == seq
    &&& little_bits_at(packet, at + 8) == timestamp
}

/// A message is behind its header.
proof fn lemma_echo_behind(
    header: Seq<u8>,
    pseudo: Seq<u8>,
    kind: u8,
    ident: u16,
    seq: u16,
    timestamp: u64,
)
    ensures
        has_echo_at(
            header + echo_message(pseudo, kind, ident, seq, timestamp),
            header.len() as int,
            kind,
            ident,
            seq,
            timestamp,
        ),
{
    let message = echo_message(pseudo, kind, ident, seq, timestamp);
    let packet = header + message;
    let at = header.len() as int;
    lemma_echo_message(pseudo, kind, ident, seq, timestamp);
    assert forall|i: int| 0 <= i < 64 implies #[trigger] message[i] == packet[at + i] by {}
    assert(message[0] == packet[at + 0]);
    assert(message[4] == packet[at + 4] && message[5] == packet[at + 5] && message[6] == packet[at
        + 6] && message[7] == packet[at + 7]);
    assert(message[8] == packet[at + 8] && message[9] == packet[at + 9] && message[10] == packet[at
        + 10] && message[11] == packet[at + 11] && message[12] == packet[at + 12] && message[13]
        == packet[at + 13] && message[14] == packet[at + 14] && message[15] == packet[at + 15]);
}

/// An echo message in an IPv4 packet.
proof fn lemma_echo_ipv4(
    src: Ipv4Address,
    dst: Ipv4Address,
    kind: u8,
    ident: u16,
    seq: u16,
    timestamp: u64,
)
    ensures
        ({
            let packet = echo_ipv4_packet(src, dst, kind, ident, seq, timestamp);
            &&& has_echo_at(packet, 20, kind, ident, seq, timestamp)
            &&& packet[0] == 0x45
            &&& half_bits_at(packet, 2) == 84
            &&& packet[8] == 64
            &&& packet[9] == 1
            &&& bits_at(packet, 12) == src.bits
            &&& bits_at(packet, 16) == dst.bits
        }),
{
    let packet = echo_ipv4_packet(src, dst, kind, ident, seq, timestamp);
    let message = echo_message(Seq::empty(), kind, ident, seq, timestamp);
    let header = packet.take(20);
    lemma_echo_message(Seq::empty(), kind, ident, seq, timestamp);
    assert(packet =~= header + message);
    lemma_echo_behind(header, Seq::empty(), kind, ident, seq, timestamp);
    lemma_be32(src.bits);
    lemma_be32(dst.bits);
    assert(bits_at(packet, 12) == bits_at(src.octets(), 0));
    assert(bits_at(packet, 16) == bits_at(dst.octets(), 0));
}

/// An echo message in an IPv6 packet.
proof fn lemma_echo_ipv6(
    src: Ipv6Address,
    dst: Ipv6Address,
    kind: u8,
    ident: u16,
    seq: u16,
    timestamp: u64,
)
    ensures
        ({
            let packet = echo_ipv6_packet(src, dst, kind, ident, seq, timestamp);
            &&& has_echo_at(packet, 40, kind, ident, seq, timestamp)
            &&& packet[0] == 0x60
            &&& half_bits_at(packet, 4) == 64
            &&& packet[6] == 58
            &&& packet[7] == 64
            &&& address_bits_at(packet, 8) == src.bits
            &&& address_bits_at(packet, 24) == dst.bits
        }),
{
    let packet = echo_ipv6_packet(src, dst, kind, ident, seq, timestamp);
    let pseudo = ipv6_pseudo_header(src, dst, 64);
    let header = ipv6_header(src, dst, IpProtocol(58), 64, 64);
    fields_of_an_ipv6_header(src, dst, IpProtocol(58), 64, 64);
    lemma_echo_message(pseudo, kind, ident, seq, timestamp);
    assert(packet =~= header + echo_message(pseudo, kind, ident, seq, timestamp));
    lemma_echo_behind(header, pseudo, kind, ident, seq, timestamp);
    assert forall|i: int| 0 <= i < 40 implies #[trigger] packet[i] == header[i] by {}
    lemma_bits_of_front(packet, header, 8);
    lemma_bits_of_front(packet, header, 24);
    assert(bits_at(header, 0) == 0x6000_0000);
    assert(header[0] == 0x60);
}

/// An echo request is an ICMP message of type 8 in an IPv4 packet, or an ICMPv6 message of
/// type 128 in an IPv6 packet, between the two addresses and with a hop limit of 64, and
/// carries the identifier, the sequence number and the time.
pub proof fn fields_of_an_echo_packet(
    src: Ipv4Address,
    dst: Ipv4Address,
    src6: Ipv6Address,
    dst6: Ipv6Address,
    kind: u8,
    ident: u16,
    seq: u16,
    timestamp: u64,
)
    ensures
        ({
            let v4 = echo_ipv4_packet(src, dst, kind, ident, seq, timestamp);
            let v6 = echo_ipv6_packet(src6, dst6, kind, ident, seq, timestamp);
            &&& v4.len() == 84
            &&& v4[0] == 0x45
            &&& half_bits_at(v4, 2) == 84
            &&& v4[8] == 64
            &&& v4[9] == 1
            &&& bits_at(v4, 12) == src.bits
            &&& bits_at(v4, 16) == dst.bits
            &&& v4[20] == kind
            &&& half_bits_at(v4, 24) == ident
            &&& half_bits_at(v4, 26) == seq
            &&& little_bits_at(v4, 28) == timestamp
            &&& v6.len() == 104
            &&& v6[0] == 0x60
            &&& half_bits_at(v6, 4) == 64
            &&& v6[6] == 58
            &&& v6[7] == 64
            &&& address_bits_at(v6, 8) == src6.bits
            &&& address_bits_at(v6, 24) == dst6.bits
            &&& v6[40] == kind
            &&& half_bits_at(v6, 44) == ident
            &&& half_bits_at(v6, 46) == seq
            &&& little_bits_at(v6, 48) == timestamp
        }),
        super::echo::ICMPV4_ECHO_REQUEST == 8,
        super::echo::ICMPV4_ECHO_REPLY == 0,
        super::echo::ICMPV6_ECHO_REQUEST == 128,
        super::echo::ICMPV6_ECHO_REPLY == 129,
{
    lemma_echo_ipv4(src, dst, kind, ident, seq, timestamp);
    lemma_echo_ipv6(src6, dst6, kind, ident, seq, timestamp);
}

/// An echo reply is taken from a packet of the target, of type 0 or, from an IPv6 target, 129,
/// that carries the identifier and at least eight bytes, and verifies. It says which request
/// it answers, how much data came back, and the time at the front of the data.
pub proof fn echo_replies_are_recognised(packet: Seq<u8>, target: IpAddress, ident: u16)
    ensures
        echo_reply_from(packet, target, ident) matches Some(reply) ==> {
            let at = if target is Ipv4 {
                (packet[0] % 16) * 4
            } else {
                40
            };
            let end = if target is Ipv4 {
                half_bits_at(packet, 2)
            } else {
                40 + half_bits_at(packet, 4)
            };
            &&& at + 16 <= end <= packet.len()
            &&& match target {
                IpAddress::Ipv4(addr) => bits_at(packet, 12) == addr.bits && packet[at] == 0,
                IpAddress::Ipv6(addr) => address_bits_at(packet, 8) == addr.bits && packet[at]
                    == 129,
            }
            &&& half_bits_at(packet, at + 4) == ident
            &&& reply.seq == half_bits_at(packet, at + 6)
            &&& reply.data_len == end - at - 8
            &&& reply.timestamp == little_bits_at(packet, at + 8)
        },
{
    if echo_reply_from(packet, target, ident) is Some {
        let at = if target is Ipv4 {
            (packet[0] % 16) * 4
        } else {
            40
        };
        let message = if target is Ipv4 {
            ipv4_payload(packet)
        } else {
            ipv6_payload(packet)
        };
        assert forall|i: int| 0 <= i < message.len() implies #[trigger] message[i] == packet[at
            + i] by {}
        assert(message[0] == packet[at + 0]);
        assert(message[4] == packet[at + 4] && message[5] == packet[at + 5] && message[6]
            == packet[at + 6] && message[7] == packet[at + 7]);
        assert(message[8] == packet[at + 8] && message[9] == packet[at + 9] && message[10]
            == packet[at + 10] && message[11] == packet[at + 11] && message[12] == packet[at + 12]
            && message[13] == packet[at + 13] && message[14] == packet[at + 14] && message[15]
            == packet[at + 15]);
    }
}

/// A packet of the target that is a reply with the identifier and verifies is recognised.
pub proof fn good_echo_reply_is_taken(pseudo: Seq<u8>, message: Seq<u8>, kind: u8, ident: u16)
    ensures
        echo_reply_in(pseudo, message, kind, ident) is Some <==> message.len() >= 16 && message[0]
            == kind && half_bits_at(message, 4) == ident && (word_sum(pseudo) + word_sum(message))
            % 65535 == 0 && word_sum(pseudo) + word_sum(message) > 0,
{
    lemma_intact(word_sum(pseudo) + word_sum(message));
}

/// Of the flags of a router the highest is for managed addresses and the next for other
/// configuration. Of those of a prefix the second highest is for forming addresses.
pub proof fn flags_of_routers_and_prefixes(router: NdiscRouterFlags, prefix: NdiscPrefixInfoFlags)
    ensures
        router.has_managed() <==> router.bits >= 128,
        router.has_other() <==> router.bits % 128 >= 64,
        prefix.has_addrconf() <==> prefix.bits % 128 >= 64,
{
}

/// The version of a packet is the high half of its first byte, if that is 4 or 6.
pub proof fn version_of_a_packet(packet: Seq<u8>)
    ensures
        packet_version(packet) == Some(IpVersion::V4) <==> packet.len() > 0 && 0x40 <= packet[0]
            <= 0x4f,
        packet_version(packet) == Some(IpVersion::V6) <==> packet.len() > 0 && 0x60 <= packet[0]
            <= 0x6f,
{
}

/// Every reply of the target is taken: it is looked for in a packet whose lengths fit together
/// and whose source is the target, and nowhere else.
pub proof fn replies_of_the_target_are_taken(packet: Seq<u8>, target: IpAddress, ident: u16)
    ensures
        match target {
            IpAddress::Ipv4(addr) => {
                let header_len = (packet[0] % 16) * 4;
                let len = half_bits_at(packet, 2);
                echo_reply_from(packet, target, ident) is Some <==> packet.len() >= 20 && 20
                    <= header_len <= len <= packet.len() && bits_at(packet, 12) == addr.bits
                    && echo_reply_in(
                    Seq::empty(),
                    packet.subrange(header_len, len),
                    0,
                    ident,
                ) is Some
            },
            IpAddress::Ipv6(addr) => {
                let len = half_bits_at(packet, 4);
                let own = Ipv6Address { bits: address_bits_at(packet, 24) as u128 };
                echo_reply_from(packet, target, ident) is Some <==> packet.len() >= 40 && 40 + len
                    <= packet.len() && address_bits_at(packet, 8) == addr.bits && echo_reply_in(
                    ipv6_pseudo_header(addr, own, len),
                    packet.subrange(40, 40 + len),
                    129,
                    ident,
                ) is Some
            },
        },
{
}

} // verus!

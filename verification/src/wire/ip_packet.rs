//! IP headers.

use super::bytes::{be16, put_u16, put_u32, read_u128, read_u16, read_u32, u128_at, u16_at, u32_at};
use super::checksum::{
    checksum_of, internet_checksum, lemma_checksum_is_intact, lemma_word_sum_add,
    lemma_word_sum_pair, sum_is_intact, sum_words, word_sum,
};
use super::ip::{IpAddress, IpProtocol, IpVersion};
use super::ipv4::Ipv4Address;
use super::ipv6::Ipv6Address;
use vstd::prelude::*;

verus! {

/// Length of an IPv4 header without options.
pub const IPV4_HEADER_LEN: usize = 20;

/// Length of an IPv6 header without extensions.
pub const IPV6_HEADER_LEN: usize = 40;

/// The version in the first byte of a packet.
pub open spec fn packet_version(packet: Seq<u8>) -> Option<IpVersion> {
    if packet.len() == 0 {
        None
    } else if packet[0] / 16 == 4 {
        Some(IpVersion::V4)
    } else if packet[0] / 16 == 6 {
        Some(IpVersion::V6)
    } else {
        None
    }
}

impl IpVersion {
    /// The version of a packet, read from its first byte.
    pub fn of_packet(packet: &[u8]) -> (version: Option<IpVersion>)
        ensures
            version == packet_version(packet@),
    {
        if packet.len() == 0 {
            None
        } else if packet[0] / 16 == 4 {
            Some(IpVersion::V4)
        } else if packet[0] / 16 == 6 {
            Some(IpVersion::V6)
        } else {
            None
        }
    }
}

/// Whether the lengths in an IPv4 header fit together and fit in the packet.
pub open spec fn ipv4_well_formed(packet: Seq<u8>) -> bool {
    &&& packet.len() >= IPV4_HEADER_LEN
    &&& IPV4_HEADER_LEN <= (packet[0] % 16) * 4 <= u16_at(packet, 2) <= packet.len()
}

/// Whether the payload length in an IPv6 header fits in the packet.
pub open spec fn ipv6_well_formed(packet: Seq<u8>) -> bool {
    &&& packet.len() >= IPV6_HEADER_LEN
    &&& IPV6_HEADER_LEN + u16_at(packet, 4) <= packet.len()
}

/// The payload of an IPv4 packet whose lengths fit together.
pub open spec fn ipv4_payload(packet: Seq<u8>) -> Seq<u8> {
    packet.subrange((packet[0] % 16) * 4, u16_at(packet, 2))
}

/// The payload of an IPv6 packet whose lengths fit together.
pub open spec fn ipv6_payload(packet: Seq<u8>) -> Seq<u8> {
    packet.subrange(IPV6_HEADER_LEN as int, IPV6_HEADER_LEN + u16_at(packet, 4))
}

/// The destination and the protocol of an IP packet whose header is well formed.
pub open spec fn ip_headers(packet: Seq<u8>) -> Option<(IpAddress, IpProtocol)> {
    match packet_version(packet) {
        Some(IpVersion::V4) => if ipv4_well_formed(packet) {
            Some(
                (
                    IpAddress::Ipv4(Ipv4Address { bits: u32_at(packet, 16) as u32 }),
                    IpProtocol(packet[9]),
                ),
            )
        } else {
            None
        },
        Some(IpVersion::V6) => if ipv6_well_formed(packet) {
            Some(
                (
                    IpAddress::Ipv6(Ipv6Address { bits: u128_at(packet, 24) as u128 }),
                    IpProtocol(packet[6]),
                ),
            )
        } else {
            None
        },
        None => None,
    }
}

/// The destination address and the protocol of an outgoing IP packet, if its
/// header is well formed.
pub fn parse_ip_headers(packet: &[u8]) -> (headers: Option<(IpAddress, IpProtocol)>)
    ensures
        headers == ip_headers(packet@),
{
    match IpVersion::of_packet(packet) {
        Some(IpVersion::V4) => {
            if packet.len() < IPV4_HEADER_LEN {
                return None;
            }
            let header_len: usize = (packet[0] % 16) as usize * 4;
            let total_len: usize = read_u16(packet, 2) as usize;
            if header_len < IPV4_HEADER_LEN || header_len > total_len || total_len > packet.len() {
                return None;
            }
            Some(
                (
                    IpAddress::Ipv4(Ipv4Address { bits: read_u32(packet, 16) }),
                    IpProtocol(packet[9]),
                ),
            )
        },
        Some(IpVersion::V6) => {
            if packet.len() < IPV6_HEADER_LEN {
                return None;
            }
            let payload_len: usize = read_u16(packet, 4) as usize;
            if IPV6_HEADER_LEN + payload_len > packet.len() {
                return None;
            }
            Some(
                (
                    IpAddress::Ipv6(Ipv6Address { bits: read_u128(packet, 24) }),
                    IpProtocol(packet[6]),
                ),
            )
        },
        None => None,
    }
}

/// The first ten bytes of an IPv4 header without options: no fragmentation, and
/// the identification left zero.
pub open spec fn ipv4_header_start(payload_len: int, protocol: IpProtocol, hop_limit: u8) -> Seq<u8> {
    seq![0x45u8, 0u8] + be16(IPV4_HEADER_LEN + payload_len) + seq![
        0u8,
        0u8,
        0x40u8,
        0u8,
        hop_limit,
        protocol.0,
    ]
}

/// The addresses at the end of an IPv4 header.
pub open spec fn ipv4_addresses(src: Ipv4Address, dst: Ipv4Address) -> Seq<u8> {
    src.octets() + dst.octets()
}

/// The checksum of an IPv4 header.
pub open spec fn ipv4_header_checksum(
    src: Ipv4Address,
    dst: Ipv4Address,
    protocol: IpProtocol,
    hop_limit: u8,
    payload_len: int,
) -> int {
    internet_checksum(
        word_sum(ipv4_header_start(payload_len, protocol, hop_limit)) + word_sum(
            ipv4_addresses(src, dst),
        ),
    )
}

/// An IPv4 header without options. With `offload` the device fills the checksum
/// in, so it is left zero.
pub open spec fn ipv4_header(
    src: Ipv4Address,
    dst: Ipv4Address,
    protocol: IpProtocol,
    hop_limit: u8,
    payload_len: int,
    offload: bool,
) -> Seq<u8> {
    ipv4_header_start(payload_len, protocol, hop_limit) + be16(
        if offload {
            0
        } else {
            ipv4_header_checksum(src, dst, protocol, hop_limit, payload_len)
        },
    ) + ipv4_addresses(src, dst)
}

/// Build an IPv4 header.
pub fn build_ipv4_header(
    src: Ipv4Address,
    dst: Ipv4Address,
    protocol: IpProtocol,
    hop_limit: u8,
    payload_len: usize,
    offload: bool,
) -> (header: Vec<u8>)
    requires
        payload_len + IPV4_HEADER_LEN <= 0xffff,
    ensures
        header@ == ipv4_header(src, dst, protocol, hop_limit, payload_len as int, offload),
        header@.len() == IPV4_HEADER_LEN,
{
    let mut header: Vec<u8> = Vec::new();
    header.push(0x45);
    header.push(0);
    put_u16(&mut header, (IPV4_HEADER_LEN + payload_len) as u16);
    header.push(0);
    header.push(0);
    header.push(0x40);
    header.push(0);
    header.push(hop_limit);
    header.push(protocol.0);
    assert(header@ =~= ipv4_header_start(payload_len as int, protocol, hop_limit));
    let mut addresses: Vec<u8> = Vec::new();
    put_u32(&mut addresses, src.bits);
    put_u32(&mut addresses, dst.bits);
    assert(addresses@ =~= ipv4_addresses(src, dst));
    let checksum: u16 = if offload {
        0
    } else {
        checksum_of(sum_words(header.as_slice()) + sum_words(addresses.as_slice()))
    };
    put_u16(&mut header, checksum);
    put_u32(&mut header, src.bits);
    put_u32(&mut header, dst.bits);
    assert(header@ =~= ipv4_header(src, dst, protocol, hop_limit, payload_len as int, offload));
    header
}

/// A header whose checksum the stack filled in verifies.
pub proof fn ipv4_header_verifies(
    src: Ipv4Address,
    dst: Ipv4Address,
    protocol: IpProtocol,
    hop_limit: u8,
    payload_len: int,
)
    ensures
        sum_is_intact(word_sum(ipv4_header(src, dst, protocol, hop_limit, payload_len, false))),
{
    let start = ipv4_header_start(payload_len, protocol, hop_limit);
    let addresses = ipv4_addresses(src, dst);
    let checksum = ipv4_header_checksum(src, dst, protocol, hop_limit, payload_len);
    lemma_checksum_is_intact(word_sum(start) + word_sum(addresses));
    assert(start.len() == 10);
    lemma_word_sum_add(start, be16(checksum));
    lemma_word_sum_add(start + be16(checksum), addresses);
    lemma_word_sum_pair(be16(checksum));
}

/// An IPv6 header.
pub open spec fn ipv6_header(
    src: Ipv6Address,
    dst: Ipv6Address,
    protocol: IpProtocol,
    hop_limit: u8,
    payload_len: int,
) -> Seq<u8> {
    seq![0x60u8, 0u8, 0u8, 0u8] + be16(payload_len) + seq![protocol.0, hop_limit] + src.octets()
        + dst.octets()
}

/// Build an IPv6 header.
pub fn build_ipv6_header(
    src: Ipv6Address,
    dst: Ipv6Address,
    protocol: IpProtocol,
    hop_limit: u8,
    payload_len: usize,
) -> (header: Vec<u8>)
    requires
        payload_len <= 0xffff,
    ensures
        header@ == ipv6_header(src, dst, protocol, hop_limit, payload_len as int),
        header@.len() == IPV6_HEADER_LEN,
{
    let mut header: Vec<u8> = Vec::new();
    header.push(0x60);
    header.push(0);
    header.push(0);
    header.push(0);
    put_u16(&mut header, payload_len as u16);
    header.push(protocol.0);
    header.push(hop_limit);
    src.put(&mut header);
    dst.put(&mut header);
    assert(header@ =~= ipv6_header(src, dst, protocol, hop_limit, payload_len as int));
    header
}

} // verus!

//! ICMP echo requests and replies, whole IP packets.

use super::bytes::{
    be16, be32, lemma_be16_round_trip, lemma_be32_round_trip, put_slice, put_u16, put_u32,
    put_zeros, read_u128, read_u16, read_u32, u128_at, u16_at, u32_at, zeros,
};
use super::checksum::{
    checksum_of, internet_checksum, lemma_checksum_is_intact, lemma_word_sum_add,
    lemma_word_sum_pair, sum_is_intact, sum_words, word_sum,
};
use super::ip::{IP_PROTOCOL_ICMP, IP_PROTOCOL_ICMPV6};
use super::ip_packet::{
    build_ipv6_header, ipv4_addresses, ipv4_payload, ipv4_well_formed, ipv6_header, ipv6_payload,
    ipv6_well_formed, IPV4_HEADER_LEN, IPV6_HEADER_LEN,
};
use super::ndisc::ipv6_pseudo_header;
use super::{IpAddress, IpProtocol, Ipv4Address, Ipv6Address};
use vstd::prelude::*;
use vstd::slice::slice_subrange;

verus! {

/// The length of an echo header: type, code, checksum, identifier, sequence number.
pub const ECHO_HEADER_LEN: usize = 8;

/// The length of the data of a request: a timestamp and padding.
pub const ECHO_DATA_LEN: usize = 56;

/// The type of an ICMP echo request.
pub const ICMPV4_ECHO_REQUEST: u8 = 8;

/// The type of an ICMP echo reply.
pub const ICMPV4_ECHO_REPLY: u8 = 0;

/// The type of an ICMPv6 echo request.
pub const ICMPV6_ECHO_REQUEST: u8 = 128;

/// The type of an ICMPv6 echo reply.
pub const ICMPV6_ECHO_REPLY: u8 = 129;

/// The eight bytes of a 64-bit integer, the least significant first.
pub open spec fn le64(value: u64) -> Seq<u8> {
    seq![
        (value % 256) as u8,
        (value / 0x100 % 256) as u8,
        (value / 0x1_0000 % 256) as u8,
        (value / 0x100_0000 % 256) as u8,
        (value / 0x1_0000_0000 % 256) as u8,
        (value / 0x100_0000_0000 % 256) as u8,
        (value / 0x1_0000_0000_0000 % 256) as u8,
        (value / 0x100_0000_0000_0000 % 256) as u8,
    ]
}

/// The 64-bit integer in the eight bytes at `at`, the least significant first.
pub open spec fn le64_at(bytes: Seq<u8>, at: int) -> int {
    bytes[at] + bytes[at + 1] * 0x100 + bytes[at + 2] * 0x1_0000 + bytes[at + 3] * 0x100_0000
        + bytes[at + 4] * 0x1_0000_0000 + bytes[at + 5] * 0x100_0000_0000 + bytes[at + 6]
        * 0x1_0000_0000_0000 + bytes[at + 7] * 0x100_0000_0000_0000
}

/// What is written as 64 bits is read back.
pub proof fn le64_round_trip(value: u64)
    ensures
        le64(value).len() == 8,
        le64_at(le64(value), 0) == value,
{
    assert(value == value % 256 + (value / 0x100 % 256) * 0x100 + (value / 0x1_0000 % 256)
        * 0x1_0000 + (value / 0x100_0000 % 256) * 0x100_0000 + (value / 0x1_0000_0000 % 256)
        * 0x1_0000_0000 + (value / 0x100_0000_0000 % 256) * 0x100_0000_0000 + (value
        / 0x1_0000_0000_0000 % 256) * 0x1_0000_0000_0000 + (value / 0x100_0000_0000_0000 % 256)
        * 0x100_0000_0000_0000) by (bit_vector);
}

/// Append a 64-bit integer, the least significant byte first.
fn put_le64(bytes: &mut Vec<u8>, value: u64)
    ensures
        final(bytes)@ == old(bytes)@ + le64(value),
{
    bytes.push((value % 256) as u8);
    bytes.push((value / 0x100 % 256) as u8);
    bytes.push((value / 0x1_0000 % 256) as u8);
    bytes.push((value / 0x100_0000 % 256) as u8);
    bytes.push((value / 0x1_0000_0000 % 256) as u8);
    bytes.push((value / 0x100_0000_0000 % 256) as u8);
    bytes.push((value / 0x1_0000_0000_0000 % 256) as u8);
    bytes.push((value / 0x100_0000_0000_0000 % 256) as u8);
    assert(bytes@ =~= old(bytes)@ + le64(value));
}

/// Read a 64-bit integer, the least significant byte first.
fn read_le64(bytes: &[u8], at: usize) -> (value: u64)
    requires
        at + 8 <= bytes@.len(),
    ensures
        value == le64_at(bytes@, at as int),
{
    bytes[at] as u64 + bytes[at + 1] as u64 * 0x100 + bytes[at + 2] as u64 * 0x1_0000 + bytes[at
        + 3] as u64 * 0x100_0000 + bytes[at + 4] as u64 * 0x1_0000_0000 + bytes[at + 5] as u64
        * 0x100_0000_0000 + bytes[at + 6] as u64 * 0x1_0000_0000_0000 + bytes[at + 7] as u64
        * 0x100_0000_0000_0000
}

/// The part of an echo message behind the checksum.
pub open spec fn echo_rest(ident: u16, seq: u16, timestamp: u64) -> Seq<u8> {
    be16(ident as int) + be16(seq as int) + le64(timestamp) + zeros(ECHO_DATA_LEN - 8)
}

/// An echo message. `pseudo` is what the checksum covers besides the message.
pub open spec fn echo_message(
    pseudo: Seq<u8>,
    kind: u8,
    ident: u16,
    seq: u16,
    timestamp: u64,
) -> Seq<u8> {
    let rest = echo_rest(ident, seq, timestamp);
    seq![kind, 0u8] + be16(
        internet_checksum(word_sum(pseudo) + word_sum(seq![kind, 0u8]) + word_sum(rest)),
    ) + rest
}

/// Build an echo message.
fn build_echo_message(pseudo: &[u8], kind: u8, ident: u16, seq: u16, timestamp: u64) -> (message:
    Vec<u8>)
    requires
        pseudo@.len() <= 40,
    ensures
        message@ == echo_message(pseudo@, kind, ident, seq, timestamp),
        message@.len() == ECHO_HEADER_LEN + ECHO_DATA_LEN,
{
    let mut rest: Vec<u8> = Vec::new();
    put_u16(&mut rest, ident);
    put_u16(&mut rest, seq);
    put_le64(&mut rest, timestamp);
    put_zeros(&mut rest, ECHO_DATA_LEN - 8);
    assert(rest@ =~= echo_rest(ident, seq, timestamp));
    let mut message: Vec<u8> = Vec::new();
    message.push(kind);
    message.push(0);
    assert(message@ =~= seq![kind, 0u8]);
    let checksum: u16 = checksum_of(
        sum_words(pseudo) + sum_words(message.as_slice()) + sum_words(rest.as_slice()),
    );
    put_u16(&mut message, checksum);
    put_slice(&mut message, rest.as_slice());
    assert(message@ =~= echo_message(pseudo@, kind, ident, seq, timestamp));
    message
}

/// An echo message verifies.
pub proof fn echo_message_verifies(
    pseudo: Seq<u8>,
    kind: u8,
    ident: u16,
    seq: u16,
    timestamp: u64,
)
    ensures
        sum_is_intact(word_sum(pseudo) + word_sum(echo_message(pseudo, kind, ident, seq, timestamp))),
{
    let start = seq![kind, 0u8];
    let rest = echo_rest(ident, seq, timestamp);
    let sum = word_sum(pseudo) + word_sum(start) + word_sum(rest);
    let checksum = internet_checksum(sum);
    lemma_checksum_is_intact(sum);
    lemma_word_sum_add(start, be16(checksum));
    lemma_word_sum_add(start + be16(checksum), rest);
    lemma_word_sum_pair(be16(checksum));
}

/// The first ten bytes of the IPv4 header of an echo message.
pub open spec fn echo_ipv4_start() -> Seq<u8> {
    seq![0x45u8, 0u8] + be16(IPV4_HEADER_LEN + ECHO_HEADER_LEN + ECHO_DATA_LEN) + seq![
        0u8,
        0u8,
        0u8,
        0u8,
        64u8,
        IP_PROTOCOL_ICMP,
    ]
}

/// An ICMP echo message in its IPv4 packet.
pub open spec fn echo_ipv4_packet(
    src: Ipv4Address,
    dst: Ipv4Address,
    kind: u8,
    ident: u16,
    seq: u16,
    timestamp: u64,
) -> Seq<u8> {
    echo_ipv4_start() + be16(
        internet_checksum(word_sum(echo_ipv4_start()) + word_sum(ipv4_addresses(src, dst))),
    ) + ipv4_addresses(src, dst) + echo_message(Seq::empty(), kind, ident, seq, timestamp)
}

/// An ICMPv6 echo message in its IPv6 packet.
pub open spec fn echo_ipv6_packet(
    src: Ipv6Address,
    dst: Ipv6Address,
    kind: u8,
    ident: u16,
    seq: u16,
    timestamp: u64,
) -> Seq<u8> {
    let len = ECHO_HEADER_LEN + ECHO_DATA_LEN;
    ipv6_header(src, dst, IpProtocol(IP_PROTOCOL_ICMPV6), 64, len) + echo_message(
        ipv6_pseudo_header(src, dst, len),
        kind,
        ident,
        seq,
        timestamp,
    )
}

/// Build an ICMP echo request, IPv4 header included.
pub fn build_ipv4_echo_request(
    src: Ipv4Address,
    dst: Ipv4Address,
    ident: u16,
    seq: u16,
    timestamp: u64,
) -> (packet: Vec<u8>)
    ensures
        packet@ == echo_ipv4_packet(src, dst, ICMPV4_ECHO_REQUEST, ident, seq, timestamp),
{
    let mut packet: Vec<u8> = Vec::new();
    packet.push(0x45);
    packet.push(0);
    put_u16(&mut packet, (IPV4_HEADER_LEN + ECHO_HEADER_LEN + ECHO_DATA_LEN) as u16);
    put_zeros(&mut packet, 4);
    packet.push(64);
    packet.push(IP_PROTOCOL_ICMP);
    assert(packet@ =~= echo_ipv4_start());
    let mut addresses: Vec<u8> = Vec::new();
    put_u32(&mut addresses, src.bits);
    put_u32(&mut addresses, dst.bits);
    assert(addresses@ =~= ipv4_addresses(src, dst));
    let checksum: u16 = checksum_of(
        sum_words(packet.as_slice()) + sum_words(addresses.as_slice()),
    );
    put_u16(&mut packet, checksum);
    put_slice(&mut packet, addresses.as_slice());
    let nothing: Vec<u8> = Vec::new();
    assert(nothing@ =~= Seq::empty());
    let message = build_echo_message(
        nothing.as_slice(),
        ICMPV4_ECHO_REQUEST,
        ident,
        seq,
        timestamp,
    );
    put_slice(&mut packet, message.as_slice());
    packet
}

/// Build an ICMPv6 echo request, IPv6 header included.
pub fn build_ipv6_echo_request(
    src: Ipv6Address,
    dst: Ipv6Address,
    ident: u16,
    seq: u16,
    timestamp: u64,
) -> (packet: Vec<u8>)
    ensures
        packet@ == echo_ipv6_packet(src, dst, ICMPV6_ECHO_REQUEST, ident, seq, timestamp),
{
    let len: usize = ECHO_HEADER_LEN + ECHO_DATA_LEN;
    let mut packet = build_ipv6_header(src, dst, IpProtocol(IP_PROTOCOL_ICMPV6), 64, len);
    let pseudo = build_pseudo_header(src, dst, len);
    let message = build_echo_message(
        pseudo.as_slice(),
        ICMPV6_ECHO_REQUEST,
        ident,
        seq,
        timestamp,
    );
    put_slice(&mut packet, message.as_slice());
    packet
}

/// Build what an ICMPv6 checksum covers besides the message.
fn build_pseudo_header(src: Ipv6Address, dst: Ipv6Address, len: usize) -> (pseudo: Vec<u8>)
    requires
        len <= 0xffff,
    ensures
        pseudo@ == ipv6_pseudo_header(src, dst, len as int),
        pseudo@.len() == 40,
{
    let mut pseudo: Vec<u8> = Vec::new();
    src.put(&mut pseudo);
    dst.put(&mut pseudo);
    put_u32(&mut pseudo, len as u32);
    put_zeros(&mut pseudo, 3);
    pseudo.push(IP_PROTOCOL_ICMPV6);
    assert(pseudo@ =~= ipv6_pseudo_header(src, dst, len as int));
    pseudo
}

/// What an echo reply says.
#[derive(Clone, Copy, PartialEq, Eq, Structural, Debug)]
pub struct EchoReply {
    pub seq: u16,
    pub data_len: usize,
    pub timestamp: u64,
}

/// The reply in an echo message of the given type, if it carries the identifier, has
/// a timestamp, and verifies. `pseudo` is what the checksum covers besides it.
pub open spec fn echo_reply_in(
    pseudo: Seq<u8>,
    message: Seq<u8>,
    kind: u8,
    ident: u16,
) -> Option<EchoReply> {
    if message.len() < ECHO_HEADER_LEN + 8 || message[0] != kind || u16_at(message, 4) != ident
        || !sum_is_intact(word_sum(pseudo) + word_sum(message)) {
        None
    } else {
        Some(
            EchoReply {
                seq: u16_at(message, 6) as u16,
                data_len: (message.len() - ECHO_HEADER_LEN) as usize,
                timestamp: le64_at(message, ECHO_HEADER_LEN as int) as u64,
            },
        )
    }
}

/// The echo reply in an IP packet, if it is one from `target` that carries the
/// identifier.
pub open spec fn echo_reply_from(packet: Seq<u8>, target: IpAddress, ident: u16) -> Option<EchoReply> {
    match target {
        IpAddress::Ipv4(addr) => if !ipv4_well_formed(packet) || u32_at(packet, 12) != addr.bits {
            None
        } else {
            echo_reply_in(Seq::empty(), ipv4_payload(packet), ICMPV4_ECHO_REPLY, ident)
        },
        IpAddress::Ipv6(addr) => if !ipv6_well_formed(packet) || u128_at(packet, 8) != addr.bits {
            None
        } else {
            let payload = ipv6_payload(packet);
            let dst = Ipv6Address { bits: u128_at(packet, 24) as u128 };
            echo_reply_in(
                ipv6_pseudo_header(addr, dst, payload.len() as int),
                payload,
                ICMPV6_ECHO_REPLY,
                ident,
            )
        },
    }
}

/// Read the reply in an echo message.
fn parse_echo_message(pseudo: &[u8], message: &[u8], kind: u8, ident: u16) -> (reply: Option<
    EchoReply,
>)
    requires
        pseudo@.len() <= 40,
        message@.len() <= 0xffff,
    ensures
        reply == echo_reply_in(pseudo@, message@, kind, ident),
{
    if message.len() < ECHO_HEADER_LEN + 8 || message[0] != kind || read_u16(message, 4) != ident {
        return None;
    }
    let sum: u64 = sum_words(pseudo) + sum_words(message);
    if checksum_of(sum) != 0 {
        return None;
    }
    Some(
        EchoReply {
            seq: read_u16(message, 6),
            data_len: message.len() - ECHO_HEADER_LEN,
            timestamp: read_le64(message, ECHO_HEADER_LEN),
        },
    )
}

/// Parse a received IP packet. If it is an echo reply from the target carrying the
/// identifier, return its sequence number, data length and timestamp.
pub fn parse_echo_reply(packet: &[u8], target: IpAddress, ident: u16) -> (reply: Option<EchoReply>)
    ensures
        reply == echo_reply_from(packet@, target, ident),
{
    match target {
        IpAddress::Ipv4(addr) => {
            if packet.len() < IPV4_HEADER_LEN {
                return None;
            }
            let header_len: usize = (packet[0] % 16) as usize * 4;
            let total_len: usize = read_u16(packet, 2) as usize;
            if header_len < IPV4_HEADER_LEN || header_len > total_len || total_len > packet.len() {
                return None;
            }
            if read_u32(packet, 12) != addr.bits {
                return None;
            }
            let nothing: Vec<u8> = Vec::new();
            assert(nothing@ =~= Seq::empty());
            let message = slice_subrange(packet, header_len, total_len);
            parse_echo_message(nothing.as_slice(), message, ICMPV4_ECHO_REPLY, ident)
        },
        IpAddress::Ipv6(addr) => {
            if packet.len() < IPV6_HEADER_LEN {
                return None;
            }
            let payload_len: usize = read_u16(packet, 4) as usize;
            if IPV6_HEADER_LEN + payload_len > packet.len() {
                return None;
            }
            if read_u128(packet, 8) != addr.bits {
                return None;
            }
            let dst = Ipv6Address { bits: read_u128(packet, 24) };
            let pseudo = build_pseudo_header(addr, dst, payload_len);
            let message = slice_subrange(packet, IPV6_HEADER_LEN, IPV6_HEADER_LEN + payload_len);
            parse_echo_message(pseudo.as_slice(), message, ICMPV6_ECHO_REPLY, ident)
        },
    }
}

/// The fields of an echo message are where a reader looks for them.
proof fn lemma_echo_fields(pseudo: Seq<u8>, kind: u8, ident: u16, seq: u16, timestamp: u64)
    ensures
        ({
            let message = echo_message(pseudo, kind, ident, seq, timestamp);
            &&& message.len() == ECHO_HEADER_LEN + ECHO_DATA_LEN
            &&& message[0] == kind
            &&& u16_at(message, 4) == ident
            &&& u16_at(message, 6) == seq
            &&& le64_at(message, ECHO_HEADER_LEN as int) == timestamp
        }),
{
    let message = echo_message(pseudo, kind, ident, seq, timestamp);
    lemma_be16_round_trip(ident);
    lemma_be16_round_trip(seq);
    le64_round_trip(timestamp);
    assert(message.subrange(4, 6) =~= be16(ident as int));
    assert(message.subrange(6, 8) =~= be16(seq as int));
    assert(message.subrange(8, 16) =~= le64(timestamp));
    assert(u16_at(message, 4) == u16_at(message.subrange(4, 6), 0));
    assert(u16_at(message, 6) == u16_at(message.subrange(6, 8), 0));
    assert(le64_at(message, 8) == le64_at(message.subrange(8, 16), 0));
}

/// An echo message is read back.
proof fn lemma_echo_message_read_back(
    pseudo: Seq<u8>,
    kind: u8,
    ident: u16,
    seq: u16,
    timestamp: u64,
)
    ensures
        echo_message(pseudo, kind, ident, seq, timestamp).len() == ECHO_HEADER_LEN + ECHO_DATA_LEN,
        echo_reply_in(
            pseudo,
            echo_message(pseudo, kind, ident, seq, timestamp),
            kind,
            ident,
        ) == Some(EchoReply { seq, data_len: ECHO_DATA_LEN, timestamp }),
{
    lemma_echo_fields(pseudo, kind, ident, seq, timestamp);
    echo_message_verifies(pseudo, kind, ident, seq, timestamp);
}

/// An echo message in an IPv4 packet is found.
proof fn lemma_ipv4_envelope(
    checksum: Seq<u8>,
    target: Ipv4Address,
    own: Ipv4Address,
    message: Seq<u8>,
    ident: u16,
)
    requires
        checksum.len() == 2,
        message.len() == ECHO_HEADER_LEN + ECHO_DATA_LEN,
    ensures
        echo_reply_from(
            echo_ipv4_start() + checksum + ipv4_addresses(target, own) + message,
            IpAddress::Ipv4(target),
            ident,
        ) == echo_reply_in(Seq::empty(), message, ICMPV4_ECHO_REPLY, ident),
{
    let packet = echo_ipv4_start() + checksum + ipv4_addresses(target, own) + message;
    lemma_be32_round_trip(target.bits);
    assert(packet[0] == 0x45);
    assert(packet[2] == 0 && packet[3] == 84);
    assert(packet.subrange(12, 16) =~= be32(target.bits as int));
    assert(u32_at(packet, 12) == u32_at(packet.subrange(12, 16), 0));
    assert(ipv4_payload(packet) =~= message);
}

/// A reply from an IPv4 target to one of our requests is recognised, and gives back
/// the sequence number and the timestamp of the request.
pub proof fn ipv4_echo_reply_is_recognised(
    target: Ipv4Address,
    own: Ipv4Address,
    ident: u16,
    seq: u16,
    timestamp: u64,
)
    ensures
        echo_reply_from(
            echo_ipv4_packet(target, own, ICMPV4_ECHO_REPLY, ident, seq, timestamp),
            IpAddress::Ipv4(target),
            ident,
        ) == Some(EchoReply { seq, data_len: ECHO_DATA_LEN, timestamp }),
{
    let message = echo_message(Seq::empty(), ICMPV4_ECHO_REPLY, ident, seq, timestamp);
    let checksum = be16(
        internet_checksum(word_sum(echo_ipv4_start()) + word_sum(ipv4_addresses(target, own))),
    );
    lemma_echo_message_read_back(Seq::empty(), ICMPV4_ECHO_REPLY, ident, seq, timestamp);
    lemma_ipv4_envelope(checksum, target, own, message, ident);
}

/// The bytes of an IPv6 address are read back.
pub proof fn lemma_ipv6_octets(addr: Ipv6Address, bytes: Seq<u8>, at: int)
    requires
        0 <= at,
        at + 16 <= bytes.len(),
        bytes.subrange(at, at + 16) == addr.octets(),
    ensures
        u128_at(bytes, at) == addr.bits,
{
    let bits = addr.bits;
    let a = (bits / 0x1_0000_0000_0000_0000_0000_0000) as u32;
    let b = ((bits / 0x1_0000_0000_0000_0000) % 0x1_0000_0000) as u32;
    let c = ((bits / 0x1_0000_0000) % 0x1_0000_0000) as u32;
    let d = (bits % 0x1_0000_0000) as u32;
    let part = bytes.subrange(at, at + 16);
    lemma_be32_round_trip(a);
    lemma_be32_round_trip(b);
    lemma_be32_round_trip(c);
    lemma_be32_round_trip(d);
    assert(bits / 0x1_0000_0000_0000_0000_0000_0000 <= 0xffff_ffff) by (bit_vector);
    assert(part.subrange(0, 4) =~= be32(a as int));
    assert(part.subrange(4, 8) =~= be32(b as int));
    assert(part.subrange(8, 12) =~= be32(c as int));
    assert(part.subrange(12, 16) =~= be32(d as int));
    assert(u32_at(bytes, at) == u32_at(part.subrange(0, 4), 0));
    assert(u32_at(bytes, at + 4) == u32_at(part.subrange(4, 8), 0));
    assert(u32_at(bytes, at + 8) == u32_at(part.subrange(8, 12), 0));
    assert(u32_at(bytes, at + 12) == u32_at(part.subrange(12, 16), 0));
    assert(bits == (bits / 0x1_0000_0000_0000_0000_0000_0000)
        * 0x1_0000_0000_0000_0000_0000_0000 + ((bits / 0x1_0000_0000_0000_0000) % 0x1_0000_0000)
        * 0x1_0000_0000_0000_0000 + ((bits / 0x1_0000_0000) % 0x1_0000_0000) * 0x1_0000_0000 + bits
        % 0x1_0000_0000) by (bit_vector);
}

/// An echo message in an IPv6 packet is found.
#[verifier::rlimit(40)]
#[verifier::spinoff_prover]
proof fn lemma_ipv6_envelope(target: Ipv6Address, own: Ipv6Address, message: Seq<u8>, ident: u16)
    requires
        message.len() == ECHO_HEADER_LEN + ECHO_DATA_LEN,
    ensures
        echo_reply_from(
            ipv6_header(target, own, IpProtocol(IP_PROTOCOL_ICMPV6), 64, message.len() as int)
                + message,
            IpAddress::Ipv6(target),
            ident,
        ) == echo_reply_in(
            ipv6_pseudo_header(target, own, message.len() as int),
            message,
            ICMPV6_ECHO_REPLY,
            ident,
        ),
{
    let header = ipv6_header(
        target,
        own,
        IpProtocol(IP_PROTOCOL_ICMPV6),
        64,
        message.len() as int,
    );
    let packet = header + message;
    assert(target.octets().len() == 16 && own.octets().len() == 16);
    assert(header.len() == IPV6_HEADER_LEN);
    assert(packet[4] == 0 && packet[5] == 64);
    assert(packet.subrange(8, 24) =~= target.octets());
    assert(packet.subrange(24, 40) =~= own.octets());
    lemma_ipv6_octets(target, packet, 8);
    lemma_ipv6_octets(own, packet, 24);
    assert(ipv6_payload(packet) =~= message);
}

/// A reply from an IPv6 target to one of our requests is recognised, and gives back
/// the sequence number and the timestamp of the request.
pub proof fn ipv6_echo_reply_is_recognised(
    target: Ipv6Address,
    own: Ipv6Address,
    ident: u16,
    seq: u16,
    timestamp: u64,
)
    ensures
        echo_reply_from(
            echo_ipv6_packet(target, own, ICMPV6_ECHO_REPLY, ident, seq, timestamp),
            IpAddress::Ipv6(target),
            ident,
        ) == Some(EchoReply { seq, data_len: ECHO_DATA_LEN, timestamp }),
{
    let len = ECHO_HEADER_LEN + ECHO_DATA_LEN;
    let pseudo = ipv6_pseudo_header(target, own, len);
    let message = echo_message(pseudo, ICMPV6_ECHO_REPLY, ident, seq, timestamp);
    lemma_echo_message_read_back(pseudo, ICMPV6_ECHO_REPLY, ident, seq, timestamp);
    lemma_ipv6_envelope(target, own, message, ident);
}

} // verus!

//! UDP headers.

use super::bytes::{
    be16, be32, lemma_be16_round_trip, lemma_be32_round_trip, put_u16, put_u32, read_u16, read_u32,
    u16_at, u32_at,
};
use super::checksum::{
    checksum_of, internet_checksum, lemma_checksum_is_intact, lemma_word_sum_add,
    lemma_word_sum_pair, sum_is_intact, sum_words, word_sum,
};
use super::ip::{IpProtocol, IP_PROTOCOL_UDP};
use super::ip_packet::{
    ipv4_header, ipv4_header_verifies, ipv4_payload, ipv4_well_formed, IPV4_HEADER_LEN,
};
use super::ipv4::Ipv4Address;
use vstd::prelude::*;
use vstd::slice::slice_subrange;

verus! {

/// Length of a UDP header.
pub const UDP_HEADER_LEN: usize = 8;

/// The header that counts toward the checksum of a datagram without being sent.
pub open spec fn udp_pseudo_header(src: Ipv4Address, dst: Ipv4Address, len: int) -> Seq<u8> {
    src.octets() + dst.octets() + seq![0u8, IP_PROTOCOL_UDP] + be16(len)
}

/// The ports and the length of a UDP header.
pub open spec fn udp_header_start(src_port: u16, dst_port: u16, len: int) -> Seq<u8> {
    be16(src_port as int) + be16(dst_port as int) + be16(len)
}

/// The checksum of a datagram. Zero would mean that there is none, so it is sent
/// as its other form.
pub open spec fn udp_checksum(
    src: Ipv4Address,
    dst: Ipv4Address,
    src_port: u16,
    dst_port: u16,
    payload: Seq<u8>,
) -> int {
    let len = UDP_HEADER_LEN + payload.len();
    let checksum = internet_checksum(
        word_sum(udp_pseudo_header(src, dst, len)) + word_sum(
            udp_header_start(src_port, dst_port, len),
        ) + word_sum(payload),
    );
    if checksum == 0 {
        0xffff
    } else {
        checksum
    }
}

/// A datagram. With `offload` the device fills the checksum in, so it is left
/// zero.
pub open spec fn udp_datagram(
    src: Ipv4Address,
    dst: Ipv4Address,
    src_port: u16,
    dst_port: u16,
    payload: Seq<u8>,
    offload: bool,
) -> Seq<u8> {
    udp_header_start(src_port, dst_port, UDP_HEADER_LEN + payload.len()) + be16(
        if offload {
            0
        } else {
            udp_checksum(src, dst, src_port, dst_port, payload)
        },
    ) + payload
}

/// Build the UDP header of a datagram with this payload.
pub fn build_udp_header(
    src: Ipv4Address,
    dst: Ipv4Address,
    src_port: u16,
    dst_port: u16,
    payload: &[u8],
    offload: bool,
) -> (header: Vec<u8>)
    requires
        UDP_HEADER_LEN + payload@.len() <= 0xffff,
    ensures
        header@ + payload@ == udp_datagram(src, dst, src_port, dst_port, payload@, offload),
        header@.len() == UDP_HEADER_LEN,
{
    let len: u16 = (UDP_HEADER_LEN + payload.len()) as u16;
    let mut header: Vec<u8> = Vec::new();
    put_u16(&mut header, src_port);
    put_u16(&mut header, dst_port);
    put_u16(&mut header, len);
    assert(header@ =~= udp_header_start(src_port, dst_port, len as int));
    let checksum: u16 = if offload {
        0
    } else {
        let mut pseudo: Vec<u8> = Vec::new();
        put_u32(&mut pseudo, src.bits);
        put_u32(&mut pseudo, dst.bits);
        pseudo.push(0);
        pseudo.push(IP_PROTOCOL_UDP);
        put_u16(&mut pseudo, len);
        assert(pseudo@ =~= udp_pseudo_header(src, dst, len as int));
        let sum: u64 = sum_words(pseudo.as_slice()) + sum_words(header.as_slice()) + sum_words(
            payload,
        );
        let checksum: u16 = checksum_of(sum);
        if checksum == 0 {
            0xffff
        } else {
            checksum
        }
    };
    put_u16(&mut header, checksum);
    assert(header@ + payload@ =~= udp_datagram(src, dst, src_port, dst_port, payload@, offload));
    header
}

/// A datagram whose checksum the stack filled in verifies, and does not look as
/// if it had none.
pub proof fn udp_datagram_verifies(
    src: Ipv4Address,
    dst: Ipv4Address,
    src_port: u16,
    dst_port: u16,
    payload: Seq<u8>,
)
    ensures
        0 < udp_checksum(src, dst, src_port, dst_port, payload) <= 0xffff,
        sum_is_intact(
            word_sum(udp_pseudo_header(src, dst, UDP_HEADER_LEN + payload.len())) + word_sum(
                udp_datagram(src, dst, src_port, dst_port, payload, false),
            ),
        ),
{
    let len = UDP_HEADER_LEN + payload.len();
    let start = udp_header_start(src_port, dst_port, len);
    let checksum = udp_checksum(src, dst, src_port, dst_port, payload);
    let sum = word_sum(udp_pseudo_header(src, dst, len)) + word_sum(start) + word_sum(payload);
    lemma_checksum_is_intact(sum);
    assert(start.len() == 6);
    lemma_word_sum_add(start, be16(checksum));
    lemma_word_sum_add(start + be16(checksum), payload);
    lemma_word_sum_pair(be16(checksum));
    if internet_checksum(sum) == 0 {
        assert(sum > 0);
        let q = (sum - 1) / 65535;
        assert(sum - 1 == q * 65535 + 65534);
        assert((sum - 1 + 65535) % 65535 == 65534) by (nonlinear_arith)
            requires
                sum - 1 == q * 65535 + 65534,
        ;
    }
}

/// A datagram that came in an IPv4 packet.
#[derive(Clone, Copy, Debug)]
pub struct UdpDatagram<'a> {
    pub src_addr: Ipv4Address,
    pub dst_addr: Ipv4Address,
    pub src_port: u16,
    pub dst_port: u16,
    pub payload: &'a [u8],
}

/// A datagram that came in an IPv4 packet.
#[verifier::ext_equal]
pub struct UdpView {
    pub src_addr: Ipv4Address,
    pub dst_addr: Ipv4Address,
    pub src_port: u16,
    pub dst_port: u16,
    pub payload: Seq<u8>,
}

impl<'a> View for UdpDatagram<'a> {
    type V = UdpView;

    open spec fn view(&self) -> UdpView {
        UdpView {
            src_addr: self.src_addr,
            dst_addr: self.dst_addr,
            src_port: self.src_port,
            dst_port: self.dst_port,
            payload: self.payload@,
        }
    }
}

/// Whether an IPv4 packet is whole, and not a fragment of a larger one: the flag
/// for more fragments and the offset are zero.
pub open spec fn is_unfragmented(packet: Seq<u8>) -> bool {
    (packet[6] / 32) % 2 == 0 && packet[6] % 32 == 0 && packet[7] == 0
}

/// Whether a message is a UDP datagram that is all there and verifies. A checksum
/// of zero says that there is none.
pub open spec fn udp_intact(src: Ipv4Address, dst: Ipv4Address, message: Seq<u8>) -> bool {
    &&& message.len() >= UDP_HEADER_LEN
    &&& UDP_HEADER_LEN <= u16_at(message, 4) <= message.len()
    &&& u16_at(message, 6) == 0 || sum_is_intact(
        word_sum(udp_pseudo_header(src, dst, u16_at(message, 4))) + word_sum(
            message.take(u16_at(message, 4)),
        ),
    )
}

/// The datagram in an IPv4 packet, if there is one that is intact.
pub open spec fn udp_in(packet: Seq<u8>) -> Option<UdpView> {
    let src_addr = Ipv4Address { bits: u32_at(packet, 12) as u32 };
    let dst_addr = Ipv4Address { bits: u32_at(packet, 16) as u32 };
    let message = ipv4_payload(packet);
    if packet.len() == 0 || packet[0] / 16 != 4 || !ipv4_well_formed(packet) || packet[9]
        != IP_PROTOCOL_UDP || !is_unfragmented(packet) || !sum_is_intact(
        word_sum(packet.take((packet[0] % 16) * 4)),
    ) || !udp_intact(src_addr, dst_addr, message) {
        None
    } else {
        Some(
            UdpView {
                src_addr,
                dst_addr,
                src_port: u16_at(message, 0) as u16,
                dst_port: u16_at(message, 2) as u16,
                payload: message.subrange(UDP_HEADER_LEN as int, u16_at(message, 4)),
            },
        )
    }
}

/// Whether a message is a UDP datagram that is all there and verifies.
fn is_udp_intact(src: Ipv4Address, dst: Ipv4Address, message: &[u8]) -> (intact: bool)
    requires
        message@.len() <= 0xffff,
    ensures
        intact == udp_intact(src, dst, message@),
{
    if message.len() < UDP_HEADER_LEN {
        return false;
    }
    let len: u16 = read_u16(message, 4);
    if (len as usize) < UDP_HEADER_LEN || len as usize > message.len() {
        return false;
    }
    if read_u16(message, 6) == 0 {
        return true;
    }
    let mut pseudo: Vec<u8> = Vec::new();
    put_u32(&mut pseudo, src.bits);
    put_u32(&mut pseudo, dst.bits);
    pseudo.push(0);
    pseudo.push(IP_PROTOCOL_UDP);
    put_u16(&mut pseudo, len);
    assert(pseudo@ =~= udp_pseudo_header(src, dst, len as int));
    let datagram = slice_subrange(message, 0, len as usize);
    assert(datagram@ =~= message@.take(len as int));
    checksum_of(sum_words(pseudo.as_slice()) + sum_words(datagram)) == 0
}

/// Read the datagram in a received IPv4 packet. `None` if there is none, it came in
/// fragments, or a length or a checksum is wrong.
pub fn parse_udp(packet: &[u8]) -> (datagram: Option<UdpDatagram<'_>>)
    ensures
        datagram is Some <==> udp_in(packet@) is Some,
        datagram matches Some(datagram) ==> datagram@ == udp_in(packet@)->0,
{
    if packet.len() < IPV4_HEADER_LEN || packet[0] / 16 != 4 {
        return None;
    }
    let header_len: usize = (packet[0] % 16) as usize * 4;
    let total_len: usize = read_u16(packet, 2) as usize;
    if header_len < IPV4_HEADER_LEN || header_len > total_len || total_len > packet.len() {
        return None;
    }
    if packet[9] != IP_PROTOCOL_UDP || (packet[6] / 32) % 2 != 0 || packet[6] % 32 != 0 || packet[7]
        != 0 {
        return None;
    }
    let header = slice_subrange(packet, 0, header_len);
    assert(header@ =~= packet@.take(header_len as int));
    if checksum_of(sum_words(header)) != 0 {
        return None;
    }
    let src_addr = Ipv4Address { bits: read_u32(packet, 12) };
    let dst_addr = Ipv4Address { bits: read_u32(packet, 16) };
    let message = slice_subrange(packet, header_len, total_len);
    if !is_udp_intact(src_addr, dst_addr, message) {
        return None;
    }
    Some(
        UdpDatagram {
            src_addr,
            dst_addr,
            src_port: read_u16(message, 0),
            dst_port: read_u16(message, 2),
            payload: slice_subrange(message, UDP_HEADER_LEN, read_u16(message, 4) as usize),
        },
    )
}

/// The fields of an IPv4 header are where a reader looks for them.
proof fn lemma_ipv4_fields(
    src: Ipv4Address,
    dst: Ipv4Address,
    hop_limit: u8,
    payload: Seq<u8>,
)
    requires
        IPV4_HEADER_LEN + payload.len() <= 0xffff,
    ensures
        ({
            let header = ipv4_header(
                src,
                dst,
                IpProtocol(IP_PROTOCOL_UDP),
                hop_limit,
                payload.len() as int,
                false,
            );
            let packet = header + payload;
            &&& packet[0] == 0x45
            &&& ipv4_well_formed(packet)
            &&& packet[9] == IP_PROTOCOL_UDP
            &&& is_unfragmented(packet)
            &&& packet.take(20) == header
            &&& ipv4_payload(packet) == payload
            &&& u32_at(packet, 12) == src.bits
            &&& u32_at(packet, 16) == dst.bits
        }),
{
    let header = ipv4_header(
        src,
        dst,
        IpProtocol(IP_PROTOCOL_UDP),
        hop_limit,
        payload.len() as int,
        false,
    );
    let packet = header + payload;
    assert(header.len() == IPV4_HEADER_LEN);
    let total = (IPV4_HEADER_LEN + payload.len()) as u16;
    lemma_be16_round_trip(total);
    lemma_be32_round_trip(src.bits);
    lemma_be32_round_trip(dst.bits);
    assert(packet.subrange(2, 4) =~= be16(total as int));
    assert(packet.subrange(12, 16) =~= be32(src.bits as int));
    assert(packet.subrange(16, 20) =~= be32(dst.bits as int));
    assert(u16_at(packet, 2) == u16_at(packet.subrange(2, 4), 0));
    assert(u32_at(packet, 12) == u32_at(packet.subrange(12, 16), 0));
    assert(u32_at(packet, 16) == u32_at(packet.subrange(16, 20), 0));
    assert(packet.take(20) =~= header);
    assert(ipv4_payload(packet) =~= payload);
}

/// The fields of a datagram are where a reader looks for them.
proof fn lemma_udp_fields(
    src: Ipv4Address,
    dst: Ipv4Address,
    src_port: u16,
    dst_port: u16,
    payload: Seq<u8>,
)
    requires
        UDP_HEADER_LEN + payload.len() <= 0xffff,
    ensures
        ({
            let message = udp_datagram(src, dst, src_port, dst_port, payload, false);
            &&& message.len() == UDP_HEADER_LEN + payload.len()
            &&& u16_at(message, 0) == src_port
            &&& u16_at(message, 2) == dst_port
            &&& u16_at(message, 4) == message.len()
            &&& message.subrange(UDP_HEADER_LEN as int, message.len() as int) == payload
        }),
{
    let message = udp_datagram(src, dst, src_port, dst_port, payload, false);
    let len = (UDP_HEADER_LEN + payload.len()) as u16;
    lemma_be16_round_trip(src_port);
    lemma_be16_round_trip(dst_port);
    lemma_be16_round_trip(len);
    assert(message.subrange(0, 2) =~= be16(src_port as int));
    assert(message.subrange(2, 4) =~= be16(dst_port as int));
    assert(message.subrange(4, 6) =~= be16(len as int));
    assert(u16_at(message, 0) == u16_at(message.subrange(0, 2), 0));
    assert(u16_at(message, 2) == u16_at(message.subrange(2, 4), 0));
    assert(u16_at(message, 4) == u16_at(message.subrange(4, 6), 0));
    assert(message.subrange(UDP_HEADER_LEN as int, message.len() as int) =~= payload);
}

/// A datagram whose checksum the stack filled in is intact.
proof fn lemma_udp_intact(
    src: Ipv4Address,
    dst: Ipv4Address,
    src_port: u16,
    dst_port: u16,
    payload: Seq<u8>,
)
    requires
        UDP_HEADER_LEN + payload.len() <= 0xffff,
    ensures
        udp_intact(src, dst, udp_datagram(src, dst, src_port, dst_port, payload, false)),
{
    let datagram = udp_datagram(src, dst, src_port, dst_port, payload, false);
    lemma_udp_fields(src, dst, src_port, dst_port, payload);
    udp_datagram_verifies(src, dst, src_port, dst_port, payload);
    assert(datagram.take(datagram.len() as int) =~= datagram);
}

/// A packet with an intact header and an intact datagram is read as that datagram.
proof fn lemma_udp_read(packet: Seq<u8>, src: Ipv4Address, dst: Ipv4Address, message: Seq<u8>)
    requires
        packet.len() > 0,
        packet[0] == 0x45,
        ipv4_well_formed(packet),
        packet[9] == IP_PROTOCOL_UDP,
        is_unfragmented(packet),
        sum_is_intact(word_sum(packet.take(20))),
        ipv4_payload(packet) == message,
        u32_at(packet, 12) == src.bits,
        u32_at(packet, 16) == dst.bits,
        udp_intact(src, dst, message),
    ensures
        udp_in(packet) == Some(
            UdpView {
                src_addr: src,
                dst_addr: dst,
                src_port: u16_at(message, 0) as u16,
                dst_port: u16_at(message, 2) as u16,
                payload: message.subrange(UDP_HEADER_LEN as int, u16_at(message, 4)),
            },
        ),
{
}

/// A datagram that was sent in an IPv4 packet is read back from it.
pub proof fn udp_round_trip(
    src: Ipv4Address,
    dst: Ipv4Address,
    src_port: u16,
    dst_port: u16,
    hop_limit: u8,
    payload: Seq<u8>,
)
    requires
        IPV4_HEADER_LEN + UDP_HEADER_LEN + payload.len() <= 0xffff,
    ensures
        ({
            let datagram = udp_datagram(src, dst, src_port, dst_port, payload, false);
            let header = ipv4_header(
                src,
                dst,
                IpProtocol(IP_PROTOCOL_UDP),
                hop_limit,
                datagram.len() as int,
                false,
            );
            udp_in(header + datagram) == Some(
                UdpView { src_addr: src, dst_addr: dst, src_port, dst_port, payload },
            )
        }),
{
    let datagram = udp_datagram(src, dst, src_port, dst_port, payload, false);
    let len = datagram.len() as int;
    let header = ipv4_header(src, dst, IpProtocol(IP_PROTOCOL_UDP), hop_limit, len, false);
    lemma_udp_fields(src, dst, src_port, dst_port, payload);
    lemma_ipv4_fields(src, dst, hop_limit, datagram);
    ipv4_header_verifies(src, dst, IpProtocol(IP_PROTOCOL_UDP), hop_limit, len);
    lemma_udp_intact(src, dst, src_port, dst_port, payload);
    lemma_udp_read(header + datagram, src, dst, datagram);
}

} // verus!

//! Ethernet frames.

use super::bytes::{be16, put_u16, read_u16, u16_at};
use super::hardware::EthernetAddress;
use vstd::prelude::*;

verus! {

/// Length of an Ethernet header.
pub const ETHERNET_HEADER_LEN: usize = 14;

/// Length of the longest link-layer header the stack puts in front of an IP
/// packet.
pub const LINK_HEADER_LEN: usize = 14;

/// The ethertype of IPv4.
pub const ETHERTYPE_IPV4: u16 = 0x0800;

/// The ethertype of ARP.
pub const ETHERTYPE_ARP: u16 = 0x0806;

/// The ethertype of IPv6.
pub const ETHERTYPE_IPV6: u16 = 0x86dd;

/// A protocol carried by Ethernet.
#[derive(Clone, Copy, PartialEq, Eq, Structural, Debug)]
pub struct EthernetProtocol(pub u16);

/// The bytes of an Ethernet header.
pub open spec fn ethernet_header(
    dst: EthernetAddress,
    src: EthernetAddress,
    ethertype: EthernetProtocol,
) -> Seq<u8> {
    dst.octets() + src.octets() + be16(ethertype.0 as int)
}

/// The ethertype of a frame, if it is long enough to have one.
pub open spec fn frame_ethertype(frame: Seq<u8>) -> Option<EthernetProtocol> {
    if frame.len() < ETHERNET_HEADER_LEN {
        None
    } else {
        Some(EthernetProtocol(u16_at(frame, 12) as u16))
    }
}

/// The ethertype of a frame, if it is long enough to have one.
pub fn parse_ethertype(frame: &[u8]) -> (ethertype: Option<EthernetProtocol>)
    ensures
        ethertype == frame_ethertype(frame@),
{
    if frame.len() < ETHERNET_HEADER_LEN {
        None
    } else {
        Some(EthernetProtocol(read_u16(frame, 12)))
    }
}

/// An Ethernet header.
pub fn build_ethernet_header(
    dst: EthernetAddress,
    src: EthernetAddress,
    ethertype: EthernetProtocol,
) -> (header: Vec<u8>)
    ensures
        header@ == ethernet_header(dst, src, ethertype),
        header@.len() == ETHERNET_HEADER_LEN,
{
    let mut header: Vec<u8> = Vec::new();
    dst.put(&mut header);
    src.put(&mut header);
    put_u16(&mut header, ethertype.0);
    assert(header@ =~= ethernet_header(dst, src, ethertype));
    header
}

/// The ethertype written in a header is the one read from the frame.
pub proof fn ethertype_round_trip(
    dst: EthernetAddress,
    src: EthernetAddress,
    ethertype: EthernetProtocol,
    payload: Seq<u8>,
)
    ensures
        frame_ethertype(ethernet_header(dst, src, ethertype) + payload) == Some(ethertype),
{
    let frame = ethernet_header(dst, src, ethertype) + payload;
    assert(frame[12] == (ethertype.0 / 256) as u8);
    assert(frame[13] == (ethertype.0 % 256) as u8);
}

} // verus!

//! Addresses, headers and messages.

use xarxa::iface::dhcpv4_server::{parse_ipv4, parse_u32};
use xarxa::iface::Medium;
use xarxa::wire::bytes::{read_u128, read_u16, read_u32, read_u64};
use xarxa::wire::checksum::{checksum_of, sum_words};
use xarxa::wire::dhcpv4::{
    put_option, DhcpFlags, DhcpMessageType, DhcpPacket, DHCP_HEADER_LEN, OPT_END, OPT_PAD,
};
use xarxa::wire::echo::{
    build_ipv4_echo_request, build_ipv6_echo_request, parse_echo_reply, EchoReply,
    ICMPV4_ECHO_REPLY, ICMPV6_ECHO_REPLY,
};
use xarxa::wire::ethernet::{build_ethernet_header, parse_ethertype};
use xarxa::wire::ip_packet::{build_ipv4_header, build_ipv6_header, parse_ip_headers};
use xarxa::wire::ndisc::{
    build_router_solicit, parse_link_layer_addr, NdiscPrefixInfoFlags, NdiscRouterFlags,
    PrefixInformation, RouterAdvert,
};
use xarxa::wire::udp::build_udp_header;
use xarxa::time::Duration;
use xarxa::wire::{
    EthernetAddress, EthernetProtocol, HardwareAddress, Ieee802154Address, IpAddress, IpProtocol,
    IpVersion, Ipv4Address, Ipv4Cidr, Ipv6Address, Ipv6Cidr, Ipv6MulticastScope,
};

#[test]
fn integers_are_read_in_network_order() {
    let bytes: Vec<u8> = (1..=17).collect();
    assert_eq!(read_u16(&bytes, 1), 0x0203);
    assert_eq!(read_u32(&bytes, 1), 0x0203_0405);
    assert_eq!(read_u64(&bytes, 1), 0x0203_0405_0607_0809);
    assert_eq!(read_u128(&bytes, 1), 0x0203_0405_0607_0809_0a0b_0c0d_0e0f_1011);
    assert_eq!(parse_u32(&[1, 2, 3, 4]), Some(0x0102_0304));
    assert_eq!(parse_u32(&[1, 2, 3]), None);
    assert_eq!(parse_u32(&[1, 2, 3, 4, 5]), None);
    assert_eq!(parse_ipv4(&[10, 0, 0, 1]), Some(Ipv4Address::new(10, 0, 0, 1)));
    assert_eq!(parse_ipv4(&[10, 0, 0]), None);
}

#[test]
fn checksum_of_the_example_in_rfc_1071() {
    let bytes = [0x00, 0x01, 0xf2, 0x03, 0xf4, 0xf5, 0xf6, 0xf7];
    assert_eq!(sum_words(&bytes), 0x2ddf0);
    assert_eq!(checksum_of(0x2ddf0), !0xddf2);
    // An odd byte counts as if a zero followed.
    assert_eq!(sum_words(&[0x12]), 0x1200);
    assert_eq!(sum_words(&[]), 0);
}

#[test]
fn kinds_of_ipv4_address() {
    assert!(Ipv4Address::unspecified().is_unspecified());
    assert!(Ipv4Address::broadcast().is_broadcast());
    assert!(Ipv4Address::new(224, 0, 0, 0).is_multicast());
    assert!(Ipv4Address::new(239, 255, 255, 255).is_multicast());
    assert!(!Ipv4Address::new(240, 0, 0, 0).is_multicast());
    assert!(!Ipv4Address::new(223, 255, 255, 255).is_multicast());
    assert!(Ipv4Address::new(10, 0, 0, 1).x_is_unicast());
    assert!(!Ipv4Address::broadcast().x_is_unicast());
    assert!(!Ipv4Address::multicast_all_systems().x_is_unicast());
    assert!(!Ipv4Address::unspecified().x_is_unicast());
    assert_eq!(Ipv4Address::new(1, 2, 3, 4).to_bits(), 0x0102_0304);
}

#[test]
fn ipv4_subnets() {
    let cidr = Ipv4Cidr::new(Ipv4Address::new(192, 168, 69, 1), 20);
    assert_eq!(cidr.netmask(), Ipv4Address::new(255, 255, 240, 0));
    assert_eq!(cidr.network().address(), Ipv4Address::new(192, 168, 64, 0));
    assert_eq!(cidr.broadcast(), Some(Ipv4Address::new(192, 168, 79, 255)));
    assert!(cidr.contains_addr(&Ipv4Address::new(192, 168, 64, 0)));
    assert!(cidr.contains_addr(&Ipv4Address::new(192, 168, 79, 255)));
    assert!(!cidr.contains_addr(&Ipv4Address::new(192, 168, 80, 0)));
    // No broadcast address where there is no room for one.
    assert_eq!(Ipv4Cidr::new(Ipv4Address::new(10, 0, 0, 1), 31).broadcast(), None);
    assert_eq!(Ipv4Cidr::new(Ipv4Address::new(10, 0, 0, 1), 32).broadcast(), None);
    let all = Ipv4Cidr::new(Ipv4Address::new(10, 0, 0, 1), 0);
    assert_eq!(all.netmask(), Ipv4Address::unspecified());
    assert!(all.contains_addr(&Ipv4Address::broadcast()));
}

#[test]
fn kinds_of_ipv6_address() {
    let link_local = Ipv6Address::new(0xfe80, 0, 0, 0, 0, 0, 0, 1);
    assert!(link_local.is_link_local());
    assert!(!Ipv6Address::new(0xfec0, 0, 0, 0, 0, 0, 0, 1).is_link_local());
    assert!(Ipv6Address::localhost().is_loopback());
    assert!(Ipv6Address::link_local_all_nodes().is_multicast());
    assert!(!Ipv6Address::link_local_all_routers().x_is_unicast());
    assert!(Ipv6Address::new(0xff02, 0, 0, 0, 0, 1, 0xff12, 0x3456).is_solicited_node_multicast());
    assert_eq!(
        Ipv6Address::link_local_all_nodes().x_multicast_scope(),
        Ipv6MulticastScope::LinkLocal
    );
    assert_eq!(link_local.x_multicast_scope(), Ipv6MulticastScope::LinkLocal);
    assert_eq!(Ipv6MulticastScope::from_number(14), Ipv6MulticastScope::Global);
    let a = Ipv6Address::new(0x2001, 0xdb8, 1, 0, 0, 0, 0, 0);
    let b = Ipv6Address::new(0x2001, 0xdb8, 2, 0, 0, 0, 0, 0);
    assert_eq!(a.common_prefix(&b), 46);
    assert_eq!(a.common_prefix(&a), 128);
    assert!(Ipv6Cidr::new(a, 46).contains_addr(&b));
    assert!(!Ipv6Cidr::new(a, 47).contains_addr(&b));
    assert!(Ipv6Cidr::new(a, 0).contains_addr(&link_local));
}

#[test]
fn kinds_of_hardware_address() {
    assert!(HardwareAddress::Ethernet(EthernetAddress(2, 0, 0, 0, 0, 1)).is_unicast());
    assert!(!HardwareAddress::Ethernet(EthernetAddress::broadcast()).is_unicast());
    assert!(!HardwareAddress::Ethernet(EthernetAddress(0x33, 0x33, 0, 0, 0, 1)).is_unicast());
    assert_eq!(HardwareAddress::Ip.medium(), Medium::Ip);
    assert_eq!(HardwareAddress::Ip.as_eui_64(), None);
    assert_eq!(
        HardwareAddress::Ethernet(EthernetAddress(1, 2, 3, 4, 5, 6)).as_eui_64(),
        Some(0x0302_03ff_fe04_0506)
    );
}

#[test]
fn ethernet_header_round_trip() {
    let dst = EthernetAddress(1, 2, 3, 4, 5, 6);
    let src = EthernetAddress(7, 8, 9, 10, 11, 12);
    let header = build_ethernet_header(dst, src, EthernetProtocol(0x86dd));
    assert_eq!(header, [1, 2, 3, 4, 5, 6, 7, 8, 9, 10, 11, 12, 0x86, 0xdd]);
    assert_eq!(parse_ethertype(&header), Some(EthernetProtocol(0x86dd)));
    assert_eq!(parse_ethertype(&header[..13]), None);
}

#[test]
fn ipv4_header_bytes() {
    let src = Ipv4Address::new(192, 168, 1, 1);
    let dst = Ipv4Address::new(192, 168, 1, 10);
    let header = build_ipv4_header(src, dst, IpProtocol(17), 64, 100, false);
    assert_eq!(header[..10], [0x45, 0, 0, 120, 0, 0, 0x40, 0, 64, 17]);
    assert_eq!(header[12..], [192, 168, 1, 1, 192, 168, 1, 10]);
    assert_eq!(checksum_of(sum_words(&header)), 0);
    let offloaded = build_ipv4_header(src, dst, IpProtocol(17), 64, 100, true);
    assert_eq!(offloaded[10..12], [0, 0]);
    let mut packet = header;
    packet.resize(120, 0);
    assert_eq!(parse_ip_headers(&packet), Some((IpAddress::Ipv4(dst), IpProtocol(17))));
    assert_eq!(IpVersion::of_packet(&packet), Some(IpVersion::V4));
    // Cut short, or with a header that is none.
    assert_eq!(parse_ip_headers(&packet[..119]), None);
    packet[0] = 0x44;
    assert_eq!(parse_ip_headers(&packet), None);
    packet[0] = 0x55;
    assert_eq!(parse_ip_headers(&packet), None);
    assert_eq!(IpVersion::of_packet(&[]), None);
}

#[test]
fn ipv6_header_bytes() {
    let src = Ipv6Address::new(0xfe80, 0, 0, 0, 0, 0, 0, 1);
    let dst = Ipv6Address::link_local_all_routers();
    let mut packet = build_ipv6_header(src, dst, IpProtocol(58), 255, 4);
    assert_eq!(packet[..8], [0x60, 0, 0, 0, 0, 4, 58, 255]);
    assert_eq!(read_u128(&packet, 8), src.bits);
    assert_eq!(read_u128(&packet, 24), dst.bits);
    assert_eq!(parse_ip_headers(&packet), None);
    packet.extend_from_slice(&[1, 2, 3, 4]);
    assert_eq!(parse_ip_headers(&packet), Some((IpAddress::Ipv6(dst), IpProtocol(58))));
}

#[test]
fn udp_datagram_checksum() {
    let src = Ipv4Address::new(192, 168, 1, 1);
    let dst = Ipv4Address::new(192, 168, 1, 31);
    let payload = [0xaa, 0x00, 0x00, 0xff];
    let header = build_udp_header(src, dst, 48896, 53, &payload, false);
    assert_eq!(header[..6], [0xbf, 0x00, 0, 53, 0, 12]);
    let mut pseudo = vec![192, 168, 1, 1, 192, 168, 1, 31, 0, 17, 0, 12];
    pseudo.extend_from_slice(&header);
    pseudo.extend_from_slice(&payload);
    assert_eq!(checksum_of(sum_words(&pseudo)), 0);
    assert_eq!(build_udp_header(src, dst, 48896, 53, &payload, true)[6..], [0, 0]);
    // A checksum of zero is sent as its other form.
    let zero = Ipv4Address::unspecified();
    let payload = (0xffffu16 - 17 - 10 - 10).to_be_bytes();
    assert_eq!(build_udp_header(zero, zero, 0, 0, &payload, false)[6..], [0xff, 0xff]);
}

#[test]
fn router_solicitation_bytes() {
    let src = Ipv6Address::new(0xfe80, 0, 0, 0, 0, 0xff, 0xfe00, 1);
    let dst = Ipv6Address::link_local_all_routers();
    let hw = HardwareAddress::Ethernet(EthernetAddress(2, 0, 0, 0, 0, 1));
    let message = build_router_solicit(src, dst, hw, true);
    assert_eq!(message, [133, 0, 0, 0, 0, 0, 0, 0, 1, 1, 2, 0, 0, 0, 0, 1]);
    let message = build_router_solicit(src, dst, hw, false);
    let mut covered = build_ipv6_header(src, dst, IpProtocol(58), 255, 0)[8..].to_vec();
    covered.extend_from_slice(&[0, 0, 0, 16, 0, 0, 0, 58]);
    covered.extend_from_slice(&message);
    assert_eq!(checksum_of(sum_words(&covered)), 0);
    let long = HardwareAddress::Ieee802154(Ieee802154Address::Extended(0x0102_0304_0506_0708));
    assert_eq!(
        build_router_solicit(src, dst, long, true)[8..],
        [1, 2, 1, 2, 3, 4, 5, 6, 7, 8, 0, 0, 0, 0, 0, 0]
    );
    assert_eq!(build_router_solicit(src, dst, HardwareAddress::Ip, true).len(), 8);
}

fn advertisement() -> Vec<u8> {
    let mut bytes = vec![134, 0, 0, 0, 64, 0xff, 0x07, 0x08, 0, 0, 0, 0, 0, 0, 0, 0];
    bytes.extend_from_slice(&[1, 1, 2, 0, 0, 0, 0, 9]);
    bytes.extend_from_slice(&[3, 4, 64, 0xff, 0, 0, 0, 100, 0, 0, 0, 50, 0, 0, 0, 0]);
    bytes.extend_from_slice(&[0x20, 1, 0xd, 0xb8, 0, 0, 0, 0, 0, 0, 0, 0, 0, 0, 0, 0]);
    bytes
}

#[test]
fn router_advertisement_is_read() {
    let bytes = advertisement();
    let advert = RouterAdvert::new_checked(&bytes).unwrap();
    assert_eq!(advert.router_flags(), NdiscRouterFlags { bits: 0xc0 });
    assert!(advert.router_flags().managed());
    assert!(advert.router_flags().other());
    assert_eq!(advert.router_lifetime(), Duration::from_secs(1800));
    let options = advert.options().unwrap();
    assert_eq!(
        options.prefixes,
        vec![PrefixInformation {
            prefix_len: 64,
            flags: NdiscPrefixInfoFlags { bits: 0xc0 },
            valid_lifetime: Duration::from_secs(100),
            preferred_lifetime: Duration::from_secs(50),
            prefix: Ipv6Address::new(0x2001, 0xdb8, 0, 0, 0, 0, 0, 0),
        }]
    );
    let data = options.link_layer_addr.unwrap();
    assert_eq!(
        parse_link_layer_addr(data, Medium::Ethernet),
        Some(HardwareAddress::Ethernet(EthernetAddress(2, 0, 0, 0, 0, 9)))
    );
    // Too short for the other medium.
    assert_eq!(parse_link_layer_addr(data, Medium::Ieee802154), None);
    assert_eq!(parse_link_layer_addr(data, Medium::Ip), None);
    assert_eq!(
        parse_link_layer_addr(&[1, 2, 3, 4, 5, 6, 7, 8], Medium::Ieee802154),
        Some(HardwareAddress::Ieee802154(Ieee802154Address::Extended(0x0102_0304_0506_0708)))
    );
}

#[test]
fn malformed_advertisement_is_refused() {
    let bytes = advertisement();
    assert!(RouterAdvert::new_checked(&bytes[..15]).is_none());
    // An option that is cut short.
    let advert = RouterAdvert { bytes: &bytes[..bytes.len() - 1] };
    assert!(advert.options().is_none());
    // An option of length zero.
    let mut empty = bytes.clone();
    empty[17] = 0;
    assert!(RouterAdvert { bytes: &empty }.options().is_none());
    // A prefix that is too short.
    let mut short = bytes[..24].to_vec();
    short[16] = 3;
    assert!(RouterAdvert { bytes: &short }.options().is_none());
    // None at all.
    assert!(RouterAdvert { bytes: &bytes[..16] }.options().unwrap().prefixes.is_empty());
}

#[test]
fn ipv4_echo_round_trip() {
    let us = Ipv4Address::new(192, 168, 69, 1);
    let them = Ipv4Address::new(192, 168, 69, 2);
    let time = 0x0102_0304_0506_0708;
    let request = build_ipv4_echo_request(us, them, 0x22b, 5, time);
    assert_eq!(request.len(), 84);
    assert_eq!(request[..10], [0x45, 0, 0, 84, 0, 0, 0, 0, 64, 1]);
    assert_eq!(request[20..22], [8, 0]);
    assert_eq!(request[24..36], [0x02, 0x2b, 0, 5, 8, 7, 6, 5, 4, 3, 2, 1]);
    assert_eq!(checksum_of(sum_words(&request[..20])), 0);
    assert_eq!(checksum_of(sum_words(&request[20..])), 0);
    assert_eq!(parse_echo_reply(&request, IpAddress::Ipv4(us), 0x22b), None);

    let mut reply = build_ipv4_echo_request(them, us, 0x22b, 5, time);
    reply[20] = ICMPV4_ECHO_REPLY;
    // The checksum no longer matches.
    assert_eq!(parse_echo_reply(&reply, IpAddress::Ipv4(them), 0x22b), None);
    reply[22..24].copy_from_slice(&[0, 0]);
    let checksum = checksum_of(sum_words(&reply[20..]));
    reply[22..24].copy_from_slice(&checksum.to_be_bytes());
    let read = Some(EchoReply { seq: 5, data_len: 56, timestamp: time });
    assert_eq!(parse_echo_reply(&reply, IpAddress::Ipv4(them), 0x22b), read);
    assert_eq!(parse_echo_reply(&reply, IpAddress::Ipv4(them), 0x22c), None);
    assert_eq!(parse_echo_reply(&reply, IpAddress::Ipv4(us), 0x22b), None);
    assert_eq!(parse_echo_reply(&reply[..83], IpAddress::Ipv4(them), 0x22b), None);
}

#[test]
fn ipv6_echo_round_trip() {
    let us = Ipv6Address::new(0xfdaa, 0, 0, 0, 0, 0, 0, 1);
    let them = Ipv6Address::new(0xfdaa, 0, 0, 0, 0, 0, 0, 2);
    let mut reply = build_ipv6_echo_request(them, us, 7, 9, 3);
    assert_eq!(reply.len(), 104);
    assert_eq!(reply[40..42], [128, 0]);
    let mut covered = reply[8..40].to_vec();
    covered.extend_from_slice(&[0, 0, 0, 64, 0, 0, 0, 58]);
    let pseudo = sum_words(&covered);
    assert_eq!(checksum_of(pseudo + sum_words(&reply[40..])), 0);
    reply[40] = ICMPV6_ECHO_REPLY;
    reply[42..44].copy_from_slice(&[0, 0]);
    let checksum = checksum_of(pseudo + sum_words(&reply[40..]));
    reply[42..44].copy_from_slice(&checksum.to_be_bytes());
    assert_eq!(
        parse_echo_reply(&reply, IpAddress::Ipv6(them), 7),
        Some(EchoReply { seq: 9, data_len: 56, timestamp: 3 })
    );
    reply[103] ^= 1;
    assert_eq!(parse_echo_reply(&reply, IpAddress::Ipv6(them), 7), None);
}

#[test]
fn dhcp_options_round_trip() {
    let mut message = vec![0; DHCP_HEADER_LEN];
    message.push(OPT_PAD);
    put_option(&mut message, 12, b"host");
    put_option(&mut message, 53, &[3]);
    put_option(&mut message, 12, b"again");
    message.push(OPT_END);
    put_option(&mut message, 60, b"behind the end");
    let packet = DhcpPacket::new_checked(&message).unwrap();
    assert_eq!(packet.option(12), Some(&b"host"[..]));
    assert_eq!(packet.option(60), None);
    assert_eq!(packet.message_type(), Ok(DhcpMessageType::Request));
    assert!(DhcpPacket::new_checked(&message[..DHCP_HEADER_LEN - 1]).is_err());
    // A message without a type, and one with a type that is too long.
    assert!(DhcpPacket::new_checked(&message[..DHCP_HEADER_LEN]).unwrap().message_type().is_err());
    let mut long = vec![0; DHCP_HEADER_LEN];
    put_option(&mut long, 53, &[3, 3]);
    assert!(DhcpPacket::new_checked(&long).unwrap().message_type().is_err());
    // The last option is cut short.
    assert_eq!(DhcpPacket::new_checked(&long[..243]).unwrap().option(53), None);
}

#[test]
fn dhcp_message_types_have_numbers() {
    for number in 0..=255 {
        assert_eq!(DhcpMessageType::from_number(number).to_number(), number);
    }
    assert_eq!(DhcpMessageType::Discover.opcode(), 1);
    assert_eq!(DhcpMessageType::Offer.opcode(), 2);
    assert_eq!(DhcpMessageType::Nak.opcode(), 2);
    assert!(DhcpFlags { bits: 0x8000 }.broadcast());
    assert!(!DhcpFlags { bits: 0x7fff }.broadcast());
}

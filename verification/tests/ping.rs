//! Pacing and timing of echo requests.

use xarxa::iface::dhcpv4_process::parse_client_datagram;
use xarxa::ping::{round_trip_time, wait_time, PingSources, Pinger};
use xarxa::time::{Duration, Instant};
use xarxa::wire::echo::{build_ipv4_echo_request, build_ipv6_echo_request, EchoReply};
use xarxa::wire::ethernet::build_ethernet_header;
use xarxa::wire::ip_packet::build_ipv4_header;
use xarxa::wire::udp::{build_udp_header, parse_udp};
use xarxa::wire::{
    EthernetAddress, EthernetProtocol, IpAddress, IpProtocol, Ipv4Address, Ipv6Address,
};

fn sources() -> PingSources {
    PingSources {
        ipv4: Ipv4Address::new(192, 168, 69, 1),
        ipv6: Ipv6Address::new(0xfdaa, 0, 0, 0, 0, 0, 0, 1),
        link_local: Ipv6Address::new(0xfe80, 0, 0, 0, 0, 0, 0, 1),
    }
}

#[test]
fn requests_are_sent_once_a_second() {
    let dst = Ipv4Address::new(192, 168, 69, 100);
    let start = Instant::from_secs(7);
    let mut pinger = Pinger::new(sources(), IpAddress::Ipv4(dst), 0x22b, start);
    assert_eq!(pinger.protocol(), IpProtocol(1));
    assert_eq!(
        pinger.request(start),
        Some(build_ipv4_echo_request(sources().ipv4, dst, 0x22b, 0, 7_000_000))
    );
    assert_eq!(pinger.request(Instant::from_micros(7_999_999)), None);
    assert_eq!(pinger.deadline(Instant::max_value()), Instant::from_secs(8));
    assert_eq!(pinger.deadline(start), start);
    assert_eq!(
        pinger.request(Instant::from_secs(9)),
        Some(build_ipv4_echo_request(sources().ipv4, dst, 0x22b, 1, 9_000_000))
    );
    // Not made up for: the next one is due a second later.
    assert_eq!(pinger.next_send, Instant::from_secs(10));
}

#[test]
fn sequence_numbers_wrap_around() {
    let dst = Ipv4Address::new(192, 168, 69, 100);
    let now = Instant::zero();
    let mut pinger = Pinger::new(sources(), IpAddress::Ipv4(dst), 1, now);
    pinger.seq = u16::MAX;
    assert!(pinger.request(now).is_some());
    assert_eq!(pinger.seq, 0);
}

#[test]
fn link_local_target_is_asked_from_link_local() {
    let now = Instant::zero();
    let near = Ipv6Address::new(0xfe80, 0, 0, 0, 0, 0, 0, 0x100);
    let far = Ipv6Address::new(0xfdaa, 0, 0, 0, 0, 0, 0, 0x100);
    let mut pinger = Pinger::new(sources(), IpAddress::Ipv6(near), 1, now);
    assert_eq!(pinger.protocol(), IpProtocol(58));
    assert_eq!(
        pinger.request(now),
        Some(build_ipv6_echo_request(sources().link_local, near, 1, 0, 0))
    );
    let mut pinger = Pinger::new(sources(), IpAddress::Ipv6(far), 1, now);
    assert_eq!(
        pinger.request(now),
        Some(build_ipv6_echo_request(sources().ipv6, far, 1, 0, 0))
    );
}

#[test]
fn round_trips_are_timed() {
    let reply = EchoReply { seq: 0, data_len: 56, timestamp: 5_000_000 };
    assert_eq!(round_trip_time(reply, Instant::from_secs(7)), Some(Duration::from_secs(2)));
    assert_eq!(round_trip_time(reply, Instant::from_secs(4)), None);
    // A time before the epoch.
    let early = EchoReply { seq: 0, data_len: 56, timestamp: u64::MAX };
    assert_eq!(round_trip_time(early, Instant::zero()), Some(Duration { micros: 1 }));
}

#[test]
fn waiting_until_a_deadline() {
    let now = Instant::from_secs(5);
    assert_eq!(wait_time(Instant::from_secs(8), now), Some(Duration::from_secs(3)));
    assert_eq!(wait_time(Instant::from_secs(5), now), Some(Duration::zero()));
    assert_eq!(wait_time(Instant::from_secs(4), now), Some(Duration::zero()));
    assert_eq!(wait_time(Instant::max_value(), now), None);
}

fn datagram(src_port: u16, dst_port: u16) -> Vec<u8> {
    let src = Ipv4Address::unspecified();
    let dst = Ipv4Address::broadcast();
    let mut packet = build_ipv4_header(src, dst, IpProtocol(17), 64, 8 + 5, false);
    packet.extend_from_slice(&build_udp_header(src, dst, src_port, dst_port, b"hello", false));
    packet.extend_from_slice(b"hello");
    packet
}

#[test]
fn udp_datagram_round_trip() {
    let packet = datagram(1000, 2000);
    let read = parse_udp(&packet).unwrap();
    assert_eq!(read.src_addr, Ipv4Address::unspecified());
    assert_eq!(read.dst_addr, Ipv4Address::broadcast());
    assert_eq!((read.src_port, read.dst_port), (1000, 2000));
    assert_eq!(read.payload, b"hello");
    // Without the checksum it is still taken, with a wrong one it is not.
    let mut without = packet.clone();
    without[26..28].copy_from_slice(&[0, 0]);
    assert_eq!(parse_udp(&without).unwrap().payload, b"hello");
    for at in [0, 2, 6, 9, 12, 24, 26, 32] {
        let mut broken = packet.clone();
        broken[at] ^= 0x21;
        assert!(parse_udp(&broken).is_none());
    }
    assert!(parse_udp(&packet[..packet.len() - 1]).is_none());
    assert!(parse_udp(&[]).is_none());
}

#[test]
fn client_datagrams_are_told_apart() {
    let frame = |ethertype: u16, packet: &[u8]| {
        let mut frame = build_ethernet_header(
            EthernetAddress::broadcast(),
            EthernetAddress(2, 0, 0, 0, 0, 1),
            EthernetProtocol(ethertype),
        );
        frame.extend_from_slice(packet);
        frame
    };
    let good = frame(0x0800, &datagram(68, 67));
    assert_eq!(parse_client_datagram(&good).unwrap().payload, b"hello");
    assert!(parse_client_datagram(&frame(0x0800, &datagram(67, 68))).is_none());
    assert!(parse_client_datagram(&frame(0x86dd, &datagram(68, 67))).is_none());
    assert!(parse_client_datagram(&good[..13]).is_none());
}

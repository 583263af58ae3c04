//! How the messages of DHCPv4 clients reach the server, and its replies the clients.

use super::dhcpv4_process::{
    client_datagram_in, datagram_frame, is_for_server, payload_step, reply_frame, served,
};
use super::dhcpv4_readback::fields_of_a_request;
use super::dhcpv4_server::{
    client_of, decline, destination, discover, inform, noted, release, reply_datagram,
    reply_message, request_step, server_step, DhcpServerConfig, Reply,
};
use super::dhcpv4_leases::LeaseView;
use super::state::{first_ipv4_cidr, is_ipv4, IfaceView};
use crate::driver::{DriverCall, Packet};
use crate::lists::lemma_position;
use crate::time::Instant;
use crate::wire::dhcpv4::{option_in, DhcpMessageType, DhcpPacket, DhcpRequestView};
use crate::wire::format_laws::{
    bits_at, carries_datagram, datagram_in_a_packet, ethernet_at, fields_of_a_datagram,
    fields_of_a_frame, fields_of_an_ipv4_header, half_bits_at,
};
use crate::wire::ip_packet::ipv4_header;
use crate::wire::udp::udp_in;
use crate::wire::{
    EthernetAddress, EthernetProtocol, HardwareAddress, IpProtocol, Ipv4Address, Ipv4Cidr,
};
use vstd::prelude::*;

verus! {

/// A datagram is a client's if it comes in an IPv4 frame, from port 68, to port 67.
pub proof fn clients_send_from_port_68_to_67(frame: Seq<u8>)
    ensures
        ({
            let packet = frame.skip(14);
            let header_len = (packet[0] % 16) * 4;
            &&& client_datagram_in(frame) is Some <==> frame.len() >= 14 && half_bits_at(frame, 12)
                == 0x0800 && carries_datagram(packet) && half_bits_at(packet, header_len) == 68
                && half_bits_at(packet, header_len + 2) == 67
            &&& client_datagram_in(frame) is Some ==> client_datagram_in(frame) == udp_in(packet)
        }),
{
    let packet = frame.skip(14);
    datagram_in_a_packet(packet);
    fields_of_a_frame(
        EthernetAddress(0, 0, 0, 0, 0, 0),
        EthernetAddress(0, 0, 0, 0, 0, 0),
        EthernetProtocol(0),
        frame,
    );
}

/// The server takes a message if it is on, the interface has an IPv4 address, and the message
/// is a request, by a client with an Ethernet address, that was not relayed, and says of which
/// type it is.
pub proof fn server_takes_requests_of_its_link(iface: IfaceView, payload: &[u8])
    ensures
        is_for_server(iface, payload) <==> {
            let kind = option_in(payload@.skip(240), 53);
            &&& iface.dhcpv4_server is Some
            &&& exists|k: int|
                0 <= k < iface.ip_addrs.len() && (#[trigger] iface.ip_addrs[k]).cidr is Ipv4
            &&& payload@.len() >= 240
            &&& payload@[0] == 1
            &&& payload@[1] == 1
            &&& payload@[2] == 6
            &&& bits_at(payload@, 24) == 0
            &&& bits_at(payload@, 236) == 0x6382_5363
            &&& kind matches Some(data) && data.len() == 1
        },
{
    if payload@.len() >= 240 {
        fields_of_a_request(DhcpPacket { bytes: payload });
    }
    lemma_position(iface.ip_addrs, is_ipv4());
    assert forall|k: int| 0 <= k < iface.ip_addrs.len() implies is_ipv4()(
        #[trigger] iface.ip_addrs[k],
    ) == (iface.ip_addrs[k].cidr is Ipv4) by {}
}

/// A message is handled as its type asks for. Those that only servers send are not answered,
/// and change nothing.
pub proof fn messages_are_handled_by_type(
    config: DhcpServerConfig,
    t: Seq<LeaseView>,
    now: Instant,
    server_cidr: Ipv4Cidr,
    kind: DhcpMessageType,
    request: DhcpRequestView,
)
    ensures
        ({
            let step = server_step(config, t, now, server_cidr, kind, request);
            &&& kind is Discover ==> step == discover(config, t, now, server_cidr, request)
            &&& kind is Request ==> step == request_step(config, t, now, server_cidr, request)
            &&& kind is Decline ==> step.leases == decline(t, now, request) && step.reply is None
            &&& kind is Release ==> step.leases == release(t, now, request) && step.reply is None
            &&& kind is Inform ==> step.leases == noted(t, client_of(request), request.chaddr)
                && step.reply == inform(request)
            &&& kind is Offer || kind is Ack || kind is Nak || kind is Unknown ==> step.leases == t
                && step.reply is None
        }),
{
}

/// A datagram is sent in an IPv4 packet, with a hop limit of 64, in a frame of the interface.
pub proof fn datagram_is_framed(
    iface: IfaceView,
    src: Ipv4Address,
    dst: Ipv4Address,
    dst_hw: EthernetAddress,
    datagram: Packet,
)
    requires
        iface.hardware_addr is Ethernet,
        datagram.bytes.len() <= 0xffff - 20,
    ensures
        ({
            let frame = datagram_frame(iface, src, dst, dst_hw, datagram);
            let packet = frame.bytes.skip(14);
            &&& frame.meta == datagram.meta
            &&& ethernet_at(frame.bytes, 0) == dst_hw
            &&& iface.hardware_addr == HardwareAddress::Ethernet(ethernet_at(frame.bytes, 6))
            &&& half_bits_at(frame.bytes, 12) == 0x0800
            &&& packet[0] == 0x45
            &&& half_bits_at(packet, 2) == packet.len()
            &&& packet[8] == 64
            &&& packet[9] == 17
            &&& bits_at(packet, 12) == src.bits
            &&& bits_at(packet, 16) == dst.bits
            &&& packet.skip(20) == datagram.bytes
        }),
{
    let len = datagram.bytes.len() as int;
    let offload = iface.caps.checksum.ipv4.tx;
    let header = ipv4_header(src, dst, IpProtocol(17), 64, len, offload);
    let packet = header + datagram.bytes;
    let frame = datagram_frame(iface, src, dst, dst_hw, datagram);
    fields_of_an_ipv4_header(src, dst, IpProtocol(17), 64, len, offload);
    fields_of_a_frame(
        dst_hw,
        iface.hardware_addr->Ethernet_0,
        EthernetProtocol(0x0800),
        packet,
    );
    assert(frame.bytes.skip(14) =~= packet);
    assert(packet.skip(20) =~= datagram.bytes);
    assert forall|i: int| 0 <= i < 20 implies #[trigger] packet[i] == header[i] by {}
    assert(bits_at(packet, 12) == bits_at(header, 12));
    assert(bits_at(packet, 16) == bits_at(header, 16));
}

/// A reply goes from port 67 of the server to port 68 of the client.
pub proof fn replies_go_from_port_67_to_68(
    config: DhcpServerConfig,
    server_cidr: Ipv4Cidr,
    request: DhcpRequestView,
    reply: Reply,
    offload: bool,
)
    requires
        reply_message(config, server_cidr, request, reply).len() + 8 <= 0xffff,
    ensures
        ({
            let datagram = reply_datagram(config, server_cidr, request, reply, offload);
            &&& half_bits_at(datagram, 0) == 67
            &&& half_bits_at(datagram, 2) == 68
            &&& half_bits_at(datagram, 4) == datagram.len()
            &&& datagram.skip(8) == reply_message(config, server_cidr, request, reply)
        }),
{
    fields_of_a_datagram(
        server_cidr.address,
        destination(request, reply).0,
        67,
        68,
        reply_message(config, server_cidr, request, reply),
        offload,
    );
}

/// A message changes the leases of the server and nothing else of the interface, but that a
/// reply, if there is one and a packet buffer for it, is sent in one frame: from the address
/// of the server to the destination of the reply.
pub proof fn one_reply_is_sent(
    iface: IfaceView,
    now: Instant,
    payload: &[u8],
    has_buf: bool,
)
    requires
        iface.wf(),
        is_for_server(iface, payload),
        payload_step(iface, now, payload).reply matches Some(reply) ==> reply_message(
            iface.dhcpv4_server->0.config,
            first_ipv4_cidr(iface.ip_addrs)->0,
            (DhcpPacket { bytes: payload })@,
            reply,
        ).len() + 28 <= 0xffff,
    ensures
        ({
            let server = iface.dhcpv4_server->0;
            let cidr = first_ipv4_cidr(iface.ip_addrs)->0;
            let request = (DhcpPacket { bytes: payload })@;
            let step = server_step(
                server.config,
                server.leases,
                now,
                cidr,
                (DhcpPacket { bytes: payload }).of_type()->0,
                request,
            );
            let after = served(iface, now, payload, has_buf);
            &&& after.dhcpv4_server matches Some(next)
            &&& next.leases == step.leases
            &&& next.config == server.config
            &&& after == (IfaceView {
                dhcpv4_server: after.dhcpv4_server,
                calls: after.calls,
                ..iface
            })
            &&& step.reply is None || !has_buf ==> after.calls == iface.calls
            &&& step.reply is Some && has_buf ==> {
                let reply = step.reply->0;
                let (addr, hardware_addr) = destination(request, reply);
                &&& after.calls.len() == iface.calls.len() + 1
                &&& after.calls.drop_last() == iface.calls
                &&& after.calls.last() matches DriverCall::Transmit(frame)
                &&& ethernet_at(frame.bytes, 0) == hardware_addr
                &&& bits_at(frame.bytes.skip(14), 12) == cidr.address.bits
                &&& bits_at(frame.bytes.skip(14), 16) == addr.bits
                &&& frame.bytes.skip(14).skip(20) == reply_datagram(
                    server.config,
                    cidr,
                    request,
                    reply,
                    iface.caps.checksum.udp.tx,
                )
                &&& frame.meta.id == 0
                &&& frame.meta.timestamp is None
                &&& !frame.meta.request_timestamp
            }
        }),
{
    let server = iface.dhcpv4_server->0;
    let cidr = first_ipv4_cidr(iface.ip_addrs)->0;
    let request = (DhcpPacket { bytes: payload })@;
    let step = payload_step(iface, now, payload);
    if step.reply is Some && has_buf {
        let reply = step.reply->0;
        let (addr, hardware_addr) = destination(request, reply);
        let datagram = reply_datagram(
            server.config,
            cidr,
            request,
            reply,
            iface.caps.checksum.udp.tx,
        );
        fields_of_a_datagram(
            cidr.address,
            addr,
            67,
            68,
            reply_message(server.config, cidr, request, reply),
            iface.caps.checksum.udp.tx,
        );
        let packet = Packet { bytes: datagram, meta: crate::driver::PacketMeta::plain() };
        datagram_is_framed(iface, cidr.address, addr, hardware_addr, packet);
        let after = served(iface, now, payload, has_buf);
        assert(after.calls.drop_last() =~= iface.calls);
        assert(reply_frame(iface, now, payload) == datagram_frame(
            iface,
            cidr.address,
            addr,
            hardware_addr,
            packet,
        ));
    }
}

} // verus!

//! The DHCPv4 server at work on an interface.

use super::dhcpv4_server::{
    destination, ends_in_time, reply_datagram, reply_fits, server_step, ServerStep,
};
use super::state::{first_ipv4_cidr, IfaceState, IfaceView, ServerView};
use super::Medium;
use crate::driver::{Driver, DriverCall, Packet, PacketBuf, PacketMeta};
use crate::stack::StackInner;
use crate::time::Instant;
use crate::wire::dhcpv4::{
    DhcpPacket, ARP_HARDWARE_ETHERNET, DHCP_CLIENT_PORT, DHCP_HEADER_LEN, DHCP_MAGIC_NUMBER,
    DHCP_OP_REQUEST, DHCP_SERVER_PORT,
};
use crate::wire::ethernet::{
    ethernet_header, frame_ethertype, parse_ethertype, ETHERNET_HEADER_LEN, ETHERTYPE_IPV4,
};
use crate::wire::ip::IP_PROTOCOL_UDP;
use crate::wire::ip_packet::{build_ipv4_header, ipv4_header};
use crate::wire::udp::{parse_udp, udp_in, UdpDatagram, UdpView};
use crate::wire::{
    EthernetAddress, EthernetProtocol, IpProtocol, Ipv4Address, Ipv4Cidr, IPV4_HEADER_LEN,
    LINK_HEADER_LEN,
};
use vstd::prelude::*;
use vstd::slice::slice_subrange;

verus! {

/// The datagram from a DHCP client to a server in an Ethernet frame, if there is
/// one.
pub open spec fn client_datagram_in(frame: Seq<u8>) -> Option<UdpView> {
    if frame_ethertype(frame) != Some(EthernetProtocol(ETHERTYPE_IPV4)) {
        None
    } else {
        match udp_in(frame.skip(ETHERNET_HEADER_LEN as int)) {
            Some(datagram) => if datagram.src_port == DHCP_CLIENT_PORT && datagram.dst_port
                == DHCP_SERVER_PORT {
                Some(datagram)
            } else {
                None
            },
            None => None,
        }
    }
}

/// Read the datagram from a DHCP client to a server in a received Ethernet frame,
/// if there is one: what the server processes.
pub fn parse_client_datagram(frame: &[u8]) -> (datagram: Option<UdpDatagram<'_>>)
    ensures
        datagram is Some <==> client_datagram_in(frame@) is Some,
        datagram matches Some(datagram) ==> datagram@ == client_datagram_in(frame@)->0,
{
    if parse_ethertype(frame) != Some(EthernetProtocol(ETHERTYPE_IPV4)) {
        return None;
    }
    let packet = slice_subrange(frame, ETHERNET_HEADER_LEN, frame.len());
    assert(packet@ =~= frame@.skip(ETHERNET_HEADER_LEN as int));
    match parse_udp(packet) {
        Some(datagram) => if datagram.src_port == DHCP_CLIENT_PORT && datagram.dst_port
            == DHCP_SERVER_PORT {
            Some(datagram)
        } else {
            None
        },
        None => None,
    }
}

/// Whether a UDP payload is for the DHCP server of the interface: the server is
/// on, the interface has an IPv4 address, and it is a client's message.
pub open spec fn is_for_server(iface: IfaceView, payload: &[u8]) -> bool {
    &&& iface.dhcpv4_server is Some
    &&& first_ipv4_cidr(iface.ip_addrs) is Some
    &&& payload@.len() >= DHCP_HEADER_LEN
    &&& (DhcpPacket { bytes: payload }).is_client_message()
}

/// What the server of the interface does with a payload that is for it.
pub open spec fn payload_step(iface: IfaceView, now: Instant, payload: &[u8]) -> ServerStep {
    let packet = DhcpPacket { bytes: payload };
    server_step(
        iface.dhcpv4_server->0.config,
        iface.dhcpv4_server->0.leases,
        now,
        first_ipv4_cidr(iface.ip_addrs)->0,
        packet.of_type()->0,
        packet@,
    )
}

/// Whether the end that a payload for the server gives a lease, if it gives one, is a
/// representable instant.
pub open spec fn payload_in_time(iface: IfaceView, now: Instant, payload: &[u8]) -> bool {
    let packet = DhcpPacket { bytes: payload };
    ends_in_time(
        iface.dhcpv4_server->0.config,
        iface.dhcpv4_server->0.leases,
        now,
        first_ipv4_cidr(iface.ip_addrs)->0,
        packet.of_type()->0,
        packet@,
    )
}

/// The frame of a UDP datagram sent by the interface: the datagram in an IPv4 packet
/// in an Ethernet frame.
pub open spec fn datagram_frame(
    iface: IfaceView,
    src_addr: Ipv4Address,
    dst_addr: Ipv4Address,
    dst_hw: EthernetAddress,
    datagram: Packet,
) -> Packet {
    Packet {
        bytes: ethernet_header(
            dst_hw,
            iface.hardware_addr->Ethernet_0,
            EthernetProtocol(ETHERTYPE_IPV4),
        ) + (ipv4_header(
            src_addr,
            dst_addr,
            IpProtocol(IP_PROTOCOL_UDP),
            64,
            datagram.bytes.len() as int,
            iface.caps.checksum.ipv4.tx,
        ) + datagram.bytes),
        ..datagram
    }
}

/// The frame of the reply to a payload.
pub open spec fn reply_frame(iface: IfaceView, now: Instant, payload: &[u8]) -> Packet {
    let packet = DhcpPacket { bytes: payload };
    let cidr = first_ipv4_cidr(iface.ip_addrs)->0;
    let reply = payload_step(iface, now, payload).reply->0;
    let (dst_addr, dst_hw) = destination(packet@, reply);
    let datagram = reply_datagram(
        iface.dhcpv4_server->0.config,
        cidr,
        packet@,
        reply,
        iface.caps.checksum.udp.tx,
    );
    datagram_frame(
        iface,
        cidr.address,
        dst_addr,
        dst_hw,
        (Packet { bytes: datagram, meta: PacketMeta::plain() }),
    )
}

/// The interface after its server handled a payload. `has_buf` tells whether there
/// was a packet buffer for the reply.
pub open spec fn served(iface: IfaceView, now: Instant, payload: &[u8], has_buf: bool) -> IfaceView {
    let step = payload_step(iface, now, payload);
    let after = IfaceView {
        dhcpv4_server: Some(ServerView { leases: step.leases, ..iface.dhcpv4_server->0 }),
        ..iface
    };
    if step.reply is Some && has_buf {
        after.called(DriverCall::Transmit(reply_frame(iface, now, payload)))
    } else {
        after
    }
}

impl<D> IfaceState<D> {
    /// The subnet the server serves: the interface's first IPv4 address.
    pub fn dhcpv4_server_cidr(&self) -> (cidr: Option<Ipv4Cidr>)
        ensures
            cidr == first_ipv4_cidr(self@.ip_addrs),
            self@.wf() ==> (cidr matches Some(cidr) ==> cidr.wf()),
    {
        self.first_ipv4()
    }
}

impl<D: Driver> IfaceState<D> {
    /// Send a UDP datagram in an IPv4 packet, straight to a hardware address.
    pub fn send_datagram(
        &mut self,
        src_addr: Ipv4Address,
        dst_addr: Ipv4Address,
        dst_hw: EthernetAddress,
        datagram: PacketBuf,
    )
        requires
            old(self)@.wf(),
            old(self)@.medium == Medium::Ethernet,
            datagram.wf(),
            datagram.room() >= LINK_HEADER_LEN + IPV4_HEADER_LEN,
        ensures
            final(self)@.wf(),
            final(self)@ == old(self)@.called(
                DriverCall::Transmit(
                    datagram_frame(old(self)@, src_addr, dst_addr, dst_hw, datagram@),
                ),
            ),
    {
        let mut buf = datagram;
        let header = build_ipv4_header(
            src_addr,
            dst_addr,
            IpProtocol(IP_PROTOCOL_UDP),
            64,
            buf.len(),
            self.checksum_caps().ipv4.tx,
        );
        buf.push_front(header.as_slice());
        self.transmit_ethernet(dst_hw, buf, EthernetProtocol(ETHERTYPE_IPV4));
    }

    /// Process a DHCP packet received on this interface from `src_ip`, and send
    /// the reply, if it gets one and there is a packet buffer for it. `payload` is
    /// the UDP payload; the ports have already been checked by the caller.
    pub fn dhcpv4_server_process(
        &mut self,
        inner: &mut StackInner,
        src_ip: Ipv4Address,
        payload: &[u8],
    )
        requires
            old(self)@.wf(),
            is_for_server(old(self)@, payload) ==> {
                let config = old(self)@.dhcpv4_server->0.config;
                &&& payload_in_time(old(self)@, old(inner).now, payload)
                &&& payload_step(old(self)@, old(inner).now, payload).reply matches Some(reply)
                    ==> reply_fits(
                    config,
                    first_ipv4_cidr(old(self)@.ip_addrs)->0,
                    (DhcpPacket { bytes: payload })@,
                    reply,
                )
            },
        ensures
            final(self)@.wf(),
            *final(inner) == *old(inner),
            !is_for_server(old(self)@, payload) ==> final(self)@ == old(self)@,
            is_for_server(old(self)@, payload) ==> exists|has_buf: bool|
                final(self)@ == #[trigger] served(old(self)@, old(inner).now, payload, has_buf),
    {
        let buf = PacketBuf::try_new(&inner.pool);
        let ghost has_buf = buf is Some;
        self.dhcpv4_server_process_in(inner, src_ip, payload, buf);
        proof {
            if is_for_server(old(self)@, payload) {
                assert(self@ == served(old(self)@, inner.now, payload, has_buf));
            }
        }
    }

    /// Process a DHCP packet received on this interface from `src_ip`, and send the
    /// reply, if it gets one, built in an empty buffer, if there is one.
    pub fn dhcpv4_server_process_in(
        &mut self,
        inner: &mut StackInner,
        src_ip: Ipv4Address,
        payload: &[u8],
        buf: Option<PacketBuf>,
    )
        requires
            old(self)@.wf(),
            is_for_server(old(self)@, payload) ==> {
                let config = old(self)@.dhcpv4_server->0.config;
                &&& payload_in_time(old(self)@, old(inner).now, payload)
                &&& payload_step(old(self)@, old(inner).now, payload).reply matches Some(reply)
                    ==> reply_fits(
                    config,
                    first_ipv4_cidr(old(self)@.ip_addrs)->0,
                    (DhcpPacket { bytes: payload })@,
                    reply,
                )
            },
            buf matches Some(buf) ==> buf.fresh(),
        ensures
            final(self)@.wf(),
            *final(inner) == *old(inner),
            !is_for_server(old(self)@, payload) ==> final(self)@ == old(self)@,
            is_for_server(old(self)@, payload) ==> final(self)@ == served(
                old(self)@,
                old(inner).now,
                payload,
                buf is Some,
            ),
    {
        let checksum_caps = self.checksum_caps();
        let server_cidr = match self.dhcpv4_server_cidr() {
            Some(cidr) => cidr,
            None => {
                return ;
            },
        };
        let server = match &mut self.dhcpv4_server {
            Some(server) => server,
            None => {
                return ;
            },
        };
        let packet = match DhcpPacket::new_checked(payload) {
            Ok(packet) => packet,
            Err(_) => {
                return ;
            },
        };
        if packet.magic_number() != DHCP_MAGIC_NUMBER || packet.hardware_type()
            != ARP_HARDWARE_ETHERNET || packet.hardware_len() != 6 || packet.opcode()
            != DHCP_OP_REQUEST {
            return ;
        }
        let message_type = match packet.message_type() {
            Ok(message_type) => message_type,
            Err(_) => {
                return ;
            },
        };
        if packet.relay_agent_ip() != Ipv4Address::unspecified() {
            // Relayed requests are not supported.
            return ;
        }
        let reply = server.handle_in(
            buf,
            inner.now,
            server_cidr,
            &checksum_caps,
            message_type,
            &packet,
        );
        if let Some((buf, dst_addr, dst_hw)) = reply {
            self.send_datagram(server_cidr.address(), dst_addr, dst_hw, buf);
        }
    }
}

} // verus!

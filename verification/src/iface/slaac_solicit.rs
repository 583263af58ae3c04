//! Router solicitation.

use super::slaac::SlaacView;
use super::slaac_sync::{synced_iface, synced_inner};
use super::state::{link_local_ipv6, IfaceState, IfaceView};
use super::Medium;
use crate::config::PACKET_BUF_DRIVER_HEADROOM;
use crate::driver::{Driver, DriverCall, LinkState, Packet, PacketBuf, PacketMeta};
use crate::stack::{InnerView, LinkWork, LinkWorkView, StackInner};
use crate::time::Clock;
use crate::wire::ethernet::{ethernet_header, ETHERTYPE_IPV6};
use crate::wire::ip::IP_PROTOCOL_ICMPV6;
use crate::wire::ip_packet::{build_ipv6_header, ipv6_header};
use crate::wire::ndisc::{build_router_solicit, router_solicit};
use crate::wire::{
    EthernetAddress, EthernetProtocol, IpAddress, IpProtocol, Ipv6Address, IPV6_HEADER_LEN,
    LINK_HEADER_LEN,
};
use vstd::prelude::*;

verus! {

/// The Ethernet address that an IPv6 multicast address is sent to (RFC 2464
/// section 7): `33:33` and the low 32 bits.
pub open spec fn multicast_ethernet(dst: Ipv6Address) -> EthernetAddress {
    EthernetAddress(
        0x33,
        0x33,
        (dst.bits as int / 0x100_0000 % 256) as u8,
        (dst.bits as int / 0x1_0000 % 256) as u8,
        (dst.bits as int / 0x100 % 256) as u8,
        (dst.bits as int % 256) as u8,
    )
}

/// The Ethernet address that an IPv6 multicast address is sent to.
fn ethernet_for_multicast(dst: Ipv6Address) -> (addr: EthernetAddress)
    ensures
        addr == multicast_ethernet(dst),
{
    EthernetAddress(
        0x33,
        0x33,
        (dst.bits / 0x100_0000 % 256) as u8,
        (dst.bits / 0x1_0000 % 256) as u8,
        (dst.bits / 0x100 % 256) as u8,
        (dst.bits % 256) as u8,
    )
}

/// The packet of a neighbor discovery message.
pub open spec fn ndisc_packet(message: Packet, src: Ipv6Address, dst: Ipv6Address) -> Packet {
    Packet {
        bytes: ipv6_header(
            src,
            dst,
            IpProtocol(IP_PROTOCOL_ICMPV6),
            255,
            message.bytes.len() as int,
        ) + message.bytes,
        ..message
    }
}

/// The interface once a packet went out to a multicast address. Only IEEE 802.15.4
/// leaves the sending to its link layer.
pub open spec fn multicast_iface(iface: IfaceView, packet: Packet, dst: Ipv6Address) -> IfaceView {
    match iface.medium {
        Medium::Ethernet => iface.called(
            DriverCall::Transmit(
                Packet {
                    bytes: ethernet_header(
                        multicast_ethernet(dst),
                        iface.hardware_addr->Ethernet_0,
                        EthernetProtocol(ETHERTYPE_IPV6),
                    ) + packet.bytes,
                    ..packet
                },
            ),
        ),
        Medium::Ip => iface.called(DriverCall::Transmit(packet)),
        Medium::Ieee802154 => iface,
    }
}

/// What the interfaces share once a packet went out to a multicast address.
pub open spec fn multicast_inner(
    inner: InnerView,
    iface: IfaceView,
    packet: Packet,
    dst: Ipv6Address,
) -> InnerView {
    if iface.medium == Medium::Ieee802154 {
        inner.with_work(
            LinkWorkView::SendIp { iface: iface.handle, next_hop: IpAddress::Ipv6(dst), packet },
        )
    } else {
        inner
    }
}

/// The router solicitation an interface sends.
pub open spec fn solicitation(iface: IfaceView, src: Ipv6Address) -> Packet {
    ndisc_packet(
        Packet {
            bytes: router_solicit(
                src,
                Ipv6Address::all_routers(),
                iface.hardware_addr,
                iface.caps.checksum.icmpv6.tx,
            ),
            meta: PacketMeta::plain(),
        },
        src,
        Ipv6Address::all_routers(),
    )
}

/// Whether the interface is ready to solicit routers: SLAAC is on, the link is up,
/// and there is a link-local address to send from.
pub open spec fn can_solicit(iface: IfaceView) -> bool {
    iface.slaac is Some && iface.last_link_state == LinkState::Up && link_local_ipv6(
        iface.ip_addrs,
    ) is Some
}

/// The state of SLAAC after the solicitations due were sent.
pub open spec fn solicited_slaac(iface: IfaceView, clock: Clock) -> Option<SlaacView> {
    if can_solicit(iface) && clock.has_passed(iface.slaac->0.solicit_at()) {
        Some(iface.slaac->0.solicited(clock.now))
    } else {
        iface.slaac
    }
}

/// The clock after the solicitations due were sent: it waits for the next one.
/// While solicitations wait for a link or an address, their timer does not count.
pub open spec fn solicited_clock(iface: IfaceView, clock: Clock) -> Clock {
    if !can_solicit(iface) {
        clock
    } else if clock.has_passed(iface.slaac->0.solicit_at()) {
        clock.with_deadline(iface.slaac->0.solicited(clock.now).solicit_at())
    } else {
        clock.with_deadline(iface.slaac->0.solicit_at())
    }
}

/// Whether a solicitation is due.
pub open spec fn solicitation_due(iface: IfaceView, clock: Clock) -> bool {
    can_solicit(iface) && clock.has_passed(iface.slaac->0.solicit_at())
}

/// The interface after the solicitation that is due was sent from `src`. It counts
/// as sent even if there was no packet buffer for it.
pub open spec fn solicited_iface(
    iface: IfaceView,
    src: Ipv6Address,
    clock: Clock,
    has_buf: bool,
) -> IfaceView {
    let after = IfaceView { slaac: Some(iface.slaac->0.solicited(clock.now)), ..iface };
    if has_buf {
        multicast_iface(after, solicitation(iface, src), Ipv6Address::all_routers())
    } else {
        after
    }
}

/// What the interfaces share after the solicitation that is due was sent from `src`.
pub open spec fn solicited_inner(
    inner: InnerView,
    iface: IfaceView,
    src: Ipv6Address,
    has_buf: bool,
) -> InnerView {
    if has_buf {
        multicast_inner(inner, iface, solicitation(iface, src), Ipv6Address::all_routers())
    } else {
        inner
    }
}

/// Whether a poll of the solicitations came out right. `has_buf` tells whether there
/// was a packet buffer.
pub open spec fn solicitation_outcome(
    iface: IfaceView,
    inner: InnerView,
    clock: Clock,
    has_buf: bool,
    iface_after: IfaceView,
    inner_after: InnerView,
) -> bool {
    let src = link_local_ipv6(iface.ip_addrs)->0;
    if solicitation_due(iface, clock) {
        &&& iface_after == solicited_iface(iface, src, clock, has_buf)
        &&& inner_after == solicited_inner(inner, iface, src, has_buf)
    } else {
        iface_after == iface && inner_after == inner
    }
}

impl<D> IfaceState<D> {
    /// The address to send the solicitation that is due from, if one is due.
    ///
    /// Solicitations wait for the link to be up and for a link-local address to
    /// send them from. While they wait, their timer doesn't count toward the
    /// deadline: the link coming up restarts them, and adding an address is an
    /// operation on the interface, which is followed by a poll.
    pub fn solicitation_source(&self, clock: &mut Clock) -> (src: Option<Ipv6Address>)
        ensures
            src == if solicitation_due(self@, *old(clock)) {
                link_local_ipv6(self@.ip_addrs)
            } else {
                None
            },
            *final(clock) == if can_solicit(self@) {
                old(clock).asked(self@.slaac->0.solicit_at())
            } else {
                *old(clock)
            },
    {
        let slaac = match &self.slaac {
            Some(slaac) => slaac,
            None => {
                return None;
            },
        };
        // A solicitation counts as sent even if the driver refuses the frame, so
        // don't spend the budget on a down link.
        if self.last_link_state != LinkState::Up {
            return None;
        }
        // RFC 4861 section 4.1: the source is the link-local address, or
        // unspecified. Wait for the link-local rather than solicit from `::`,
        // since a reply to `::` must be multicast and the router cannot learn our
        // link-layer address.
        let src_addr = match self.link_local_ipv6_address() {
            Some(addr) => addr,
            None => {
                return None;
            },
        };
        if slaac.rs_required(clock) {
            Some(src_addr)
        } else {
            None
        }
    }
}

impl<D: Driver> IfaceState<D> {
    /// Send a neighbor discovery message to a multicast address, which never waits
    /// on neighbor resolution.
    pub fn transmit_ndisc(
        &mut self,
        inner: &mut StackInner,
        buf: PacketBuf,
        src_addr: Ipv6Address,
        dst_addr: Ipv6Address,
    )
        requires
            old(self)@.wf(),
            buf.wf(),
            buf.room() >= LINK_HEADER_LEN + IPV6_HEADER_LEN,
        ensures
            final(self)@ == multicast_iface(
                old(self)@,
                ndisc_packet(buf@, src_addr, dst_addr),
                dst_addr,
            ),
            final(inner)@ == multicast_inner(
                old(inner)@,
                old(self)@,
                ndisc_packet(buf@, src_addr, dst_addr),
                dst_addr,
            ),
            final(inner).routes == old(inner).routes,
            old(inner).wf() ==> final(inner).wf(),
    {
        let mut buf = buf;
        let header = build_ipv6_header(
            src_addr,
            dst_addr,
            IpProtocol(IP_PROTOCOL_ICMPV6),
            255,
            buf.len(),
        );
        buf.push_front(header.as_slice());
        match self.medium {
            Medium::Ethernet => self.transmit_ethernet(
                ethernet_for_multicast(dst_addr),
                buf,
                EthernetProtocol(ETHERTYPE_IPV6),
            ),
            Medium::Ip => self.driver.transmit(buf, &mut self.calls),
            Medium::Ieee802154 => inner.push_work(
                LinkWork::SendIp {
                    iface: self.handle,
                    next_hop: IpAddress::Ipv6(dst_addr),
                    packet: buf,
                },
            ),
        }
    }

    /// Send a router solicitation from `src_addr`, built in an empty buffer.
    pub fn send_router_solicit(
        &mut self,
        inner: &mut StackInner,
        buf: PacketBuf,
        src_addr: Ipv6Address,
    )
        requires
            old(self)@.wf(),
            buf.fresh(),
        ensures
            final(self)@ == multicast_iface(
                old(self)@,
                solicitation(old(self)@, src_addr),
                Ipv6Address::all_routers(),
            ),
            final(inner)@ == multicast_inner(
                old(inner)@,
                old(self)@,
                solicitation(old(self)@, src_addr),
                Ipv6Address::all_routers(),
            ),
            final(inner).routes == old(inner).routes,
            old(inner).wf() ==> final(inner).wf(),
    {
        let mut buf = buf;
        let dst_addr = Ipv6Address::link_local_all_routers();
        let message = build_router_solicit(
            src_addr,
            dst_addr,
            self.hardware_addr,
            self.checksum_caps().icmpv6.tx,
        );
        buf.reserve(PACKET_BUF_DRIVER_HEADROOM + LINK_HEADER_LEN + IPV6_HEADER_LEN);
        buf.append(message.as_slice());
        assert(buf@.bytes =~= message@);
        self.transmit_ndisc(inner, buf, src_addr, dst_addr);
    }

    /// Send the router solicitation that is due from `src_addr`, built in an empty
    /// buffer, and wait for the next one.
    ///
    /// A solicitation counts as sent even if there is no packet buffer for it: the
    /// retry timer sends the next one.
    pub fn solicit(
        &mut self,
        inner: &mut StackInner,
        clock: &mut Clock,
        src_addr: Ipv6Address,
        buf: Option<PacketBuf>,
    )
        requires
            old(self)@.wf(),
            old(self)@.slaac is Some,
            buf matches Some(buf) ==> buf.fresh(),
            old(self)@.slaac->0.retry_in_time(old(clock).now),
        ensures
            final(self)@.wf(),
            final(inner).routes == old(inner).routes,
            old(inner).wf() ==> final(inner).wf(),
            final(self)@ == solicited_iface(old(self)@, src_addr, *old(clock), buf is Some),
            final(inner)@ == solicited_inner(old(inner)@, old(self)@, src_addr, buf is Some),
            *final(clock) == old(clock).with_deadline(
                old(self)@.slaac->0.solicited(old(clock).now).solicit_at(),
            ),
    {
        if let Some(buf) = buf {
            self.send_router_solicit(inner, buf, src_addr);
        }
        if let Some(slaac) = &mut self.slaac {
            slaac.rs_sent(clock.now());
            clock.schedule(slaac.rs_at());
        }
    }

    /// Emit a router solicitation when required by the interface's slaac state machine.
    pub fn ndisc_rs_egress(&mut self, inner: &mut StackInner, clock: &mut Clock)
        requires
            old(self)@.wf(),
            solicitation_due(old(self)@, *old(clock)) ==> old(self)@.slaac->0.retry_in_time(
                old(clock).now,
            ),
        ensures
            final(self)@.wf(),
            final(inner).routes == old(inner).routes,
            old(inner).wf() ==> final(inner).wf(),
            *final(clock) == solicited_clock(old(self)@, *old(clock)),
            final(self)@.slaac == solicited_slaac(old(self)@, *old(clock)),
            exists|has_buf: bool| #[trigger]
                solicitation_outcome(
                    old(self)@,
                    old(inner)@,
                    *old(clock),
                    has_buf,
                    final(self)@,
                    final(inner)@,
                ),
    {
        match self.solicitation_source(clock) {
            Some(src_addr) => {
                let buf = PacketBuf::try_new(&inner.pool);
                let ghost has_buf = buf is Some;
                self.solicit(inner, clock, src_addr, buf);
                assert(solicitation_outcome(
                    old(self)@,
                    old(inner)@,
                    *old(clock),
                    has_buf,
                    self@,
                    inner@,
                ));
            },
            None => {
                assert(solicitation_outcome(
                    old(self)@,
                    old(inner)@,
                    *old(clock),
                    false,
                    self@,
                    inner@,
                ));
            },
        }
    }

    /// Run SLAAC: solicit routers when due, and apply what the advertisements
    /// taught to the interface's addresses and routes.
    pub fn slaac_poll(&mut self, inner: &mut StackInner, clock: &mut Clock)
        requires
            old(self)@.wf(),
            old(inner).wf(),
            solicitation_due(old(self)@, *old(clock)) ==> old(self)@.slaac->0.retry_in_time(
                old(clock).now,
            ),
        ensures
            final(self)@.wf(),
            final(inner).wf(),
            // The clock waits for the next solicitation and the next lifetime.
            old(self)@.slaac is None ==> {
                &&& final(self)@ == old(self)@
                &&& final(inner)@ == old(inner)@
                &&& *final(clock) == *old(clock)
            },
            old(self)@.slaac is Some ==> {
                let asked = solicited_clock(old(self)@, *old(clock));
                let slaac = solicited_slaac(old(self)@, *old(clock))->0;
                &&& *final(clock) == slaac.sync_clock(asked)
                &&& exists|has_buf: bool, sent: IfaceView, inner_sent: InnerView|
                    {
                        &&& #[trigger] solicitation_outcome(
                            old(self)@,
                            old(inner)@,
                            *old(clock),
                            has_buf,
                            sent,
                            inner_sent,
                        )
                        &&& final(self)@ == if slaac.needs_sync(asked) {
                            synced_iface(sent, old(inner).now)
                        } else {
                            sent
                        }
                        &&& final(inner)@ == if slaac.needs_sync(asked) {
                            synced_inner(inner_sent, sent)
                        } else {
                            inner_sent
                        }
                    }
            },
    {
        self.ndisc_rs_egress(inner, clock);
        let ghost sent = self@;
        let ghost inner_sent = inner@;
        let ghost has_buf = choose|has_buf: bool| #[trigger]
            solicitation_outcome(
                old(self)@,
                old(inner)@,
                *old(clock),
                has_buf,
                sent,
                inner_sent,
            );
        assert(solicitation_outcome(old(self)@, old(inner)@, *old(clock), has_buf, sent, inner_sent));
        let needs_sync: bool = match &self.slaac {
            Some(slaac) => slaac.sync_required(clock),
            None => false,
        };
        if needs_sync {
            self.sync_slaac_state(inner);
        }
    }
}

} // verus!

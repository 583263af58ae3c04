//! Echo requests to one target, at a steady pace.

use crate::time::{Duration, Instant};
use crate::wire::format_laws::{
    address_bits_at, bits_at, fields_of_an_echo_packet, half_bits_at, little_bits_at,
};
use crate::wire::echo::{
    build_ipv4_echo_request, build_ipv6_echo_request, echo_ipv4_packet, echo_ipv6_packet,
    EchoReply, ICMPV4_ECHO_REQUEST, ICMPV6_ECHO_REQUEST,
};
use crate::wire::ip::{IP_PROTOCOL_ICMP, IP_PROTOCOL_ICMPV6};
use crate::wire::{IpAddress, IpProtocol, Ipv4Address, Ipv6Address};
use vstd::prelude::*;

verus! {

/// The time between two requests, in seconds.
pub const PING_INTERVAL: u64 = 1;

/// The addresses requests are sent from.
#[derive(Clone, Copy, PartialEq, Eq, Structural, Debug)]
pub struct PingSources {
    pub ipv4: Ipv4Address,
    pub ipv6: Ipv6Address,
    /// For link-local targets, whose replies must come to a link-local address.
    pub link_local: Ipv6Address,
}

/// Sends echo requests to a target, and recognises the replies.
#[derive(Clone, Copy, PartialEq, Eq, Structural, Debug)]
pub struct Pinger {
    pub sources: PingSources,
    pub target: IpAddress,
    /// Tells the replies apart from other traffic.
    pub ident: u16,
    /// The sequence number of the next request.
    pub seq: u16,
    /// When the next request is due.
    pub next_send: Instant,
}

impl Pinger {
    /// Start with the first request due at once.
    pub fn new(sources: PingSources, target: IpAddress, ident: u16, now: Instant) -> (pinger: Pinger)
        ensures
            pinger == (Pinger { sources, target, ident, seq: 0, next_send: now }),
    {
        Pinger { sources, target, ident, seq: 0, next_send: now }
    }

    /// The protocol of requests and replies: the ICMP of the target's IP version.
    pub fn protocol(&self) -> (protocol: IpProtocol)
        ensures
            protocol == match self.target {
                IpAddress::Ipv4(_) => IpProtocol(IP_PROTOCOL_ICMP),
                IpAddress::Ipv6(_) => IpProtocol(IP_PROTOCOL_ICMPV6),
            },
    {
        match self.target {
            IpAddress::Ipv4(_) => IpProtocol(IP_PROTOCOL_ICMP),
            IpAddress::Ipv6(_) => IpProtocol(IP_PROTOCOL_ICMPV6),
        }
    }

    /// Whether the next request is due.
    pub open spec fn is_due(self, now: Instant) -> bool {
        self.next_send.micros <= now.micros
    }

    /// The address an IPv6 target is asked from.
    pub open spec fn source_for(self, dst: Ipv6Address) -> Ipv6Address {
        if dst.link_local() {
            self.sources.link_local
        } else {
            self.sources.ipv6
        }
    }

    /// The request to send at `now`. It carries the time it was sent at.
    pub open spec fn request_at(self, now: Instant) -> Seq<u8> {
        let timestamp = now.micros as u64;
        match self.target {
            IpAddress::Ipv4(dst) => echo_ipv4_packet(
                self.sources.ipv4,
                dst,
                ICMPV4_ECHO_REQUEST,
                self.ident,
                self.seq,
                timestamp,
            ),
            IpAddress::Ipv6(dst) => echo_ipv6_packet(
                self.source_for(dst),
                dst,
                ICMPV6_ECHO_REQUEST,
                self.ident,
                self.seq,
                timestamp,
            ),
        }
    }

    /// The state once a request was sent at `now`. Sequence numbers wrap around.
    pub open spec fn sent(self, now: Instant) -> Pinger {
        Pinger {
            seq: if self.seq == u16::MAX {
                0
            } else {
                (self.seq + 1) as u16
            },
            next_send: now.plus(Duration::of_secs(PING_INTERVAL as int)),
            ..self
        }
    }

    /// The next request, if it is due: a whole IP packet.
    pub fn request(&mut self, now: Instant) -> (packet: Option<Vec<u8>>)
        requires
            old(self).is_due(now) ==> now.can_add(Duration::of_secs(PING_INTERVAL as int)),
        ensures
            packet is Some <==> old(self).is_due(now),
            packet matches Some(packet) ==> packet@ == old(self).request_at(now),
            *final(self) == if old(self).is_due(now) {
                old(self).sent(now)
            } else {
                *old(self)
            },
    {
        if self.next_send.micros > now.micros {
            return None;
        }
        let timestamp: u64 = #[verifier::truncate]
        (now.total_micros() as u64);
        let packet = match self.target {
            IpAddress::Ipv4(dst) => build_ipv4_echo_request(
                self.sources.ipv4,
                dst,
                self.ident,
                self.seq,
                timestamp,
            ),
            IpAddress::Ipv6(dst) => {
                let src = if dst.is_link_local() {
                    self.sources.link_local
                } else {
                    self.sources.ipv6
                };
                build_ipv6_echo_request(src, dst, self.ident, self.seq, timestamp)
            },
        };
        self.seq = if self.seq == u16::MAX {
            0
        } else {
            self.seq + 1
        };
        self.next_send = now.after(Duration::from_secs(PING_INTERVAL));
        Some(packet)
    }

    /// When to wake up at the latest: for the stack, or for the next request.
    pub fn deadline(&self, stack_deadline: Instant) -> (deadline: Instant)
        ensures
            deadline == stack_deadline.earlier_of(self.next_send),
    {
        if self.next_send.micros < stack_deadline.micros {
            self.next_send
        } else {
            stack_deadline
        }
    }
}

/// When the request that a reply answers was sent.
pub open spec fn sent_at(reply: EchoReply) -> Instant {
    Instant { micros: reply.timestamp as i64 }
}

/// How long it took from sending a request until its reply came in at `now`.
/// `None` if the reply claims that the request was sent later than that.
pub fn round_trip_time(reply: EchoReply, now: Instant) -> (time: Option<Duration>)
    ensures
        time is Some <==> sent_at(reply).micros <= now.micros,
        time matches Some(time) ==> time.micros == now.micros - sent_at(reply).micros,
{
    let sent = Instant {
        micros: #[verifier::truncate]
        (reply.timestamp as i64),
    };
    if sent.micros <= now.micros {
        Some(now.since(sent))
    } else {
        None
    }
}

/// How long to sleep until `deadline`: not at all if it has passed, and for as
/// long as it takes if it never comes.
pub fn wait_time(deadline: Instant, now: Instant) -> (time: Option<Duration>)
    ensures
        time is None <==> deadline == Instant::never(),
        time matches Some(time) ==> time.micros == if deadline.micros <= now.micros {
            0
        } else {
            deadline.micros - now.micros
        },
{
    if deadline == Instant::max_value() {
        None
    } else if deadline.micros <= now.micros {
        Some(Duration::zero())
    } else {
        Some(deadline.since(now))
    }
}

/// The time a request was sent at survives the trip: what a reply carries back
/// unchanged stands for the very same instant.
pub proof fn sending_time_is_read_back(now: Instant, seq: u16, data_len: usize)
    ensures
        sent_at(EchoReply { seq, data_len, timestamp: now.micros as u64 }) == now,
{
    let micros = now.micros;
    assert((micros as u64) as i64 == micros) by (bit_vector);
}

/// Requests are spaced: after one was sent, none is due before the interval is
/// over, and one is due then.
pub proof fn requests_are_spaced(pinger: Pinger, now: Instant, later: Instant)
    requires
        now.can_add(Duration::of_secs(PING_INTERVAL as int)),
    ensures
        pinger.sent(now).is_due(later) <==> later.micros >= now.micros + PING_INTERVAL * 1_000_000,
{
}

/// A request goes to the target, from the IPv4 source, or from the link-local one to a target of
/// `fe80::/10` and the other IPv6 source to the rest. It is an echo request with the
/// identifier, the next sequence number and the time.
pub proof fn request_goes_to_the_target(pinger: Pinger, now: Instant)
    ensures
        ({
            let packet = pinger.request_at(now);
            match pinger.target {
                IpAddress::Ipv4(dst) => {
                    &&& packet.len() == 84
                    &&& packet[0] == 0x45
                    &&& packet[9] == 1
                    &&& bits_at(packet, 12) == pinger.sources.ipv4.bits
                    &&& bits_at(packet, 16) == dst.bits
                    &&& packet[20] == 8
                    &&& half_bits_at(packet, 24) == pinger.ident
                    &&& half_bits_at(packet, 26) == pinger.seq
                    &&& little_bits_at(packet, 28) == now.micros as u64
                },
                IpAddress::Ipv6(dst) => {
                    &&& packet.len() == 104
                    &&& packet[0] == 0x60
                    &&& packet[6] == 58
                    &&& address_bits_at(packet, 8) == if 0xfe80_0000_0000_0000_0000_0000_0000_0000
                        <= dst.bits < 0xfec0_0000_0000_0000_0000_0000_0000_0000 {
                        pinger.sources.link_local.bits
                    } else {
                        pinger.sources.ipv6.bits
                    }
                    &&& address_bits_at(packet, 24) == dst.bits
                    &&& packet[40] == 128
                    &&& half_bits_at(packet, 44) == pinger.ident
                    &&& half_bits_at(packet, 46) == pinger.seq
                    &&& little_bits_at(packet, 48) == now.micros as u64
                },
            }
        }),
{
    let dst4 = match pinger.target {
        IpAddress::Ipv4(dst) => dst,
        _ => pinger.sources.ipv4,
    };
    let dst6 = match pinger.target {
        IpAddress::Ipv6(dst) => dst,
        _ => pinger.sources.ipv6,
    };
    let kind = match pinger.target {
        IpAddress::Ipv4(_) => 8u8,
        IpAddress::Ipv6(_) => 128u8,
    };
    fields_of_an_echo_packet(
        pinger.sources.ipv4,
        dst4,
        pinger.source_for(dst6),
        dst6,
        kind,
        pinger.ident,
        pinger.seq,
        now.micros as u64,
    );
}

/// Requests are numbered one after the other, around after 65535, and one second apart. A
/// request is due once its time has come.
pub proof fn requests_are_numbered(pinger: Pinger, now: Instant)
    requires
        now.micros + 1_000_000 <= i64::MAX,
    ensures
        pinger.sent(now).seq == (pinger.seq + 1) % 65536,
        pinger.sent(now).next_send.micros == now.micros + 1_000_000,
        pinger.sent(now).target == pinger.target,
        pinger.sent(now).ident == pinger.ident,
        pinger.sent(now).sources == pinger.sources,
        pinger.is_due(now) <==> pinger.next_send.micros <= now.micros,
{
}

} // verus!

//! Router solicitations and advertisements.

use super::bytes::{
    be16, be32, put_slice, put_u16, put_u32, put_zeros, read_u128, read_u16, read_u32, read_u64,
    u128_at, u16_at, u32_at, u64_at, zeros,
};
use super::checksum::{
    checksum_of, internet_checksum, lemma_checksum_is_intact, lemma_word_sum_add,
    lemma_word_sum_pair, sum_is_intact, sum_words, word_sum,
};
use super::hardware::{EthernetAddress, HardwareAddress, Ieee802154Address};
use super::ip::IP_PROTOCOL_ICMPV6;
use super::ipv6::Ipv6Address;
use crate::iface::Medium;
use crate::time::Duration;
use vstd::prelude::*;

verus! {

/// The ICMPv6 type of a router solicitation.
pub const ICMPV6_ROUTER_SOLICIT: u8 = 133;

/// The option with the link-layer address of the sender.
pub const NDISC_SOURCE_LINK_LAYER_ADDR: u8 = 1;

/// The option with a prefix of the link.
pub const NDISC_PREFIX_INFORMATION: u8 = 3;

/// The flags of a router advertisement.
#[derive(Clone, Copy, PartialEq, Eq, Structural, Debug)]
pub struct NdiscRouterFlags {
    pub bits: u8,
}

impl NdiscRouterFlags {
    /// No flags.
    pub fn empty() -> (flags: NdiscRouterFlags)
        ensures
            flags.bits == 0,
    {
        NdiscRouterFlags { bits: 0 }
    }

    /// Whether addresses are available through DHCPv6: the highest bit.
    pub open spec fn has_managed(self) -> bool {
        self.bits / 0x80 == 1
    }

    /// Whether other configuration is available through DHCPv6: the bit below.
    pub open spec fn has_other(self) -> bool {
        (self.bits / 0x40) % 2 == 1
    }

    /// Whether addresses are available through DHCPv6.
    pub fn managed(&self) -> (r: bool)
        ensures
            r == self.has_managed(),
    {
        self.bits / 0x80 == 1
    }

    /// Whether other configuration is available through DHCPv6.
    pub fn other(&self) -> (r: bool)
        ensures
            r == self.has_other(),
    {
        (self.bits / 0x40) % 2 == 1
    }
}

/// The flags of a prefix information option.
#[derive(Clone, Copy, PartialEq, Eq, Structural, Debug)]
pub struct NdiscPrefixInfoFlags {
    pub bits: u8,
}

/// The flag of a prefix that addresses may be formed from.
pub const NDISC_PREFIX_ADDRCONF: u8 = 0x40;

impl NdiscPrefixInfoFlags {
    /// Whether addresses may be formed from the prefix.
    pub open spec fn has_addrconf(self) -> bool {
        (self.bits / NDISC_PREFIX_ADDRCONF) % 2 == 1
    }

    /// Whether addresses may be formed from the prefix.
    pub fn addrconf(&self) -> (r: bool)
        ensures
            r == self.has_addrconf(),
    {
        (self.bits / NDISC_PREFIX_ADDRCONF) % 2 == 1
    }
}

/// The contents of a prefix information option, as parsed out of a router
/// advertisement.
#[derive(Clone, Copy, PartialEq, Eq, Structural, Debug)]
pub struct PrefixInformation {
    pub prefix_len: u8,
    pub flags: NdiscPrefixInfoFlags,
    pub valid_lifetime: Duration,
    pub preferred_lifetime: Duration,
    pub prefix: Ipv6Address,
}

/// The prefix information in the option `option`.
pub open spec fn prefix_information(option: Seq<u8>) -> PrefixInformation {
    PrefixInformation {
        prefix_len: option[2],
        flags: NdiscPrefixInfoFlags { bits: (option[3] / 64 * 64) as u8 },
        valid_lifetime: Duration::of_secs(u32_at(option, 4)),
        preferred_lifetime: Duration::of_secs(u32_at(option, 8)),
        prefix: Ipv6Address { bits: u128_at(option, 16) as u128 },
    }
}

/// Whether a whole option stands at the front of `bytes`: its length, in units of
/// eight bytes, is not zero, it is all there, and it holds what its type needs.
pub open spec fn option_in_front(bytes: Seq<u8>) -> bool {
    &&& bytes.len() >= 8
    &&& bytes[1] >= 1
    &&& bytes.len() >= bytes[1] * 8
    &&& bytes[0] == NDISC_PREFIX_INFORMATION ==> bytes[1] >= 4
}

/// The options `bytes` is made of, or `None` if it is not made of whole options.
pub open spec fn options_in(bytes: Seq<u8>) -> Option<Seq<Seq<u8>>>
    decreases bytes.len(),
{
    if bytes.len() == 0 {
        Some(Seq::empty())
    } else if !option_in_front(bytes) {
        None
    } else {
        match options_in(bytes.skip(bytes[1] * 8)) {
            Some(rest) => Some(seq![bytes.take(bytes[1] * 8)] + rest),
            None => None,
        }
    }
}

/// The prefix information options among `options`, in order.
pub open spec fn prefixes_among(options: Seq<Seq<u8>>) -> Seq<PrefixInformation>
    decreases options.len(),
{
    if options.len() == 0 {
        Seq::empty()
    } else if options[0][0] == NDISC_PREFIX_INFORMATION {
        seq![prefix_information(options[0])] + prefixes_among(options.skip(1))
    } else {
        prefixes_among(options.skip(1))
    }
}

/// The last source link-layer address option among `options`, or `otherwise` if
/// there is none.
pub open spec fn link_layer_addr_among(
    options: Seq<Seq<u8>>,
    otherwise: Option<Seq<u8>>,
) -> Option<Seq<u8>>
    decreases options.len(),
{
    if options.len() == 0 {
        otherwise
    } else if options[0][0] == NDISC_SOURCE_LINK_LAYER_ADDR {
        link_layer_addr_among(options.skip(1), Some(options[0].skip(2)))
    } else {
        link_layer_addr_among(options.skip(1), otherwise)
    }
}

/// The link-layer address that the data of an option stands for on a medium.
pub open spec fn link_layer_addr(data: Seq<u8>, medium: Medium) -> Option<HardwareAddress> {
    match medium {
        Medium::Ethernet => if data.len() >= 6 {
            Some(HardwareAddress::Ethernet(EthernetAddress::at(data, 0)))
        } else {
            None
        },
        Medium::Ieee802154 => if data.len() >= 8 {
            Some(
                HardwareAddress::Ieee802154(Ieee802154Address::Extended(u64_at(data, 0) as u64)),
            )
        } else {
            None
        },
        Medium::Ip => None,
    }
}

/// The link-layer address that the data of an option stands for on a medium.
pub fn parse_link_layer_addr(data: &[u8], medium: Medium) -> (addr: Option<HardwareAddress>)
    ensures
        addr == link_layer_addr(data@, medium),
{
    match medium {
        Medium::Ethernet => if data.len() >= 6 {
            Some(HardwareAddress::Ethernet(EthernetAddress::read(data, 0)))
        } else {
            None
        },
        Medium::Ieee802154 => if data.len() >= 8 {
            Some(HardwareAddress::Ieee802154(Ieee802154Address::Extended(read_u64(data, 0))))
        } else {
            None
        },
        Medium::Ip => None,
    }
}

/// A router advertisement, long enough for its header.
pub struct RouterAdvert<'a> {
    pub bytes: &'a [u8],
}

/// What the options of a router advertisement say.
pub struct RouterAdvertOptions<'a> {
    pub prefixes: Vec<PrefixInformation>,
    pub link_layer_addr: Option<&'a [u8]>,
}

impl<'a> RouterAdvert<'a> {
    /// The advertisement is long enough for its header.
    pub open spec fn wf(self) -> bool {
        self.bytes@.len() >= 16
    }

    /// The flags of the advertisement.
    pub open spec fn flags(self) -> NdiscRouterFlags {
        NdiscRouterFlags { bits: (self.bytes@[5] / 64 * 64) as u8 }
    }

    /// How long the router can be used as a default router.
    pub open spec fn lifetime(self) -> Duration {
        Duration::of_secs(u16_at(self.bytes@, 6))
    }

    /// The options of the advertisement, if they are all whole.
    pub open spec fn option_list(self) -> Option<Seq<Seq<u8>>> {
        options_in(self.bytes@.skip(16))
    }

    /// Take an ICMPv6 message for a router advertisement, if it is long enough.
    pub fn new_checked(bytes: &'a [u8]) -> (advert: Option<RouterAdvert<'a>>)
        ensures
            advert is Some <==> bytes@.len() >= 16,
            advert matches Some(advert) ==> advert.bytes == bytes,
    {
        if bytes.len() < 16 {
            None
        } else {
            Some(RouterAdvert { bytes })
        }
    }

    /// The flags of the advertisement.
    pub fn router_flags(&self) -> (flags: NdiscRouterFlags)
        requires
            self.wf(),
        ensures
            flags == self.flags(),
    {
        NdiscRouterFlags { bits: self.bytes[5] / 64 * 64 }
    }

    /// How long the router can be used as a default router.
    pub fn router_lifetime(&self) -> (lifetime: Duration)
        requires
            self.wf(),
        ensures
            lifetime == self.lifetime(),
            lifetime.micros <= 0xffff * 1_000_000,
    {
        Duration::from_secs(read_u16(self.bytes, 6) as u64)
    }

    /// Read the options: every prefix, in order, and the last link-layer address
    /// of the sender. `None` if an option is malformed.
    pub fn options(&self) -> (options: Option<RouterAdvertOptions<'a>>)
        requires
            self.wf(),
        ensures
            options is Some <==> self.option_list() is Some,
            options matches Some(options) ==> {
                &&& options.prefixes@ == prefixes_among(self.option_list()->0)
                &&& options.link_layer_addr is Some <==> link_layer_addr_among(
                    self.option_list()->0,
                    None,
                ) is Some
                &&& options.link_layer_addr matches Some(data) ==> data@ == link_layer_addr_among(
                    self.option_list()->0,
                    None,
                )->0
            },
    {
        let bytes = self.bytes;
        let mut prefixes: Vec<PrefixInformation> = Vec::new();
        let mut lladdr: Option<&'a [u8]> = None;
        let mut at: usize = 16;
        let ghost mut seen: Option<Seq<u8>> = None;
        assert(forall|s: Seq<PrefixInformation>| Seq::<PrefixInformation>::empty() + s =~= s);
        while at < bytes.len()
            invariant
                bytes == self.bytes,
                16 <= at <= bytes@.len(),
                options_in(bytes@.skip(at as int)) is Some <==> self.option_list() is Some,
                options_in(bytes@.skip(at as int)) matches Some(rest) ==> {
                    &&& prefixes@ + prefixes_among(rest) == prefixes_among(self.option_list()->0)
                    &&& link_layer_addr_among(rest, seen) == link_layer_addr_among(
                        self.option_list()->0,
                        None,
                    )
                },
                lladdr is Some <==> seen is Some,
                lladdr matches Some(data) ==> data@ == seen->0,
            decreases bytes@.len() - at,
        {
            let ghost rest = bytes@.skip(at as int);
            let left: usize = bytes.len() - at;
            if left < 8 {
                return None;
            }
            let kind: u8 = bytes[at];
            let len: usize = bytes[at + 1] as usize * 8;
            if len == 0 || left < len || (kind == NDISC_PREFIX_INFORMATION && len < 32) {
                assert(!option_in_front(rest));
                return None;
            }
            assert(option_in_front(rest));
            let option = vstd::slice::slice_subrange(bytes, at, at + len);
            let ghost tail = bytes@.skip(at + len);
            proof {
                assert(rest.take(rest[1] * 8) =~= option@);
                assert(rest.skip(rest[1] * 8) =~= tail);
                if options_in(tail) is Some {
                    let list = seq![option@] + options_in(tail)->0;
                    assert(list.skip(1) =~= options_in(tail)->0);
                    assert(list[0] == option@);
                }
            }
            let ghost before = prefixes@;
            if kind == NDISC_SOURCE_LINK_LAYER_ADDR {
                let data = vstd::slice::slice_subrange(bytes, at + 2, at + len);
                lladdr = Some(data);
                proof {
                    assert(data@ =~= option@.skip(2));
                    seen = Some(option@.skip(2));
                }
            } else if kind == NDISC_PREFIX_INFORMATION {
                let info = PrefixInformation {
                    prefix_len: option[2],
                    flags: NdiscPrefixInfoFlags { bits: option[3] / 64 * 64 },
                    valid_lifetime: Duration::from_secs(read_u32(option, 4) as u64),
                    preferred_lifetime: Duration::from_secs(read_u32(option, 8) as u64),
                    prefix: Ipv6Address { bits: read_u128(option, 16) },
                };
                prefixes.push(info);
                proof {
                    assert(info == prefix_information(option@));
                    if options_in(tail) is Some {
                        let more = prefixes_among(options_in(tail)->0);
                        assert(before + (seq![info] + more) =~= prefixes@ + more);
                    }
                }
            }
            at += len;
        }
        proof {
            assert(bytes@.skip(at as int).len() == 0);
            assert(prefixes@ + prefixes_among(Seq::empty()) =~= prefixes@);
        }
        Some(RouterAdvertOptions { prefixes, link_layer_addr: lladdr })
    }
}

/// The source link-layer address option for a hardware address, padded to a
/// multiple of eight bytes. Only 48-bit and 64-bit addresses have one.
pub open spec fn lladdr_option(addr: HardwareAddress) -> Seq<u8> {
    match addr {
        HardwareAddress::Ethernet(addr) => seq![NDISC_SOURCE_LINK_LAYER_ADDR, 1u8] + addr.octets(),
        HardwareAddress::Ieee802154(Ieee802154Address::Extended(addr)) => seq![
            NDISC_SOURCE_LINK_LAYER_ADDR,
            2u8,
        ] + be32((addr / 0x1_0000_0000) as int) + be32((addr % 0x1_0000_0000) as int) + zeros(6),
        _ => Seq::empty(),
    }
}

/// Append the source link-layer address option for a hardware address.
pub fn put_lladdr_option(bytes: &mut Vec<u8>, addr: HardwareAddress)
    ensures
        final(bytes)@ == old(bytes)@ + lladdr_option(addr),
        lladdr_option(addr).len() <= 16,
{
    match addr {
        HardwareAddress::Ethernet(addr) => {
            bytes.push(NDISC_SOURCE_LINK_LAYER_ADDR);
            bytes.push(1);
            addr.put(bytes);
        },
        HardwareAddress::Ieee802154(Ieee802154Address::Extended(addr)) => {
            bytes.push(NDISC_SOURCE_LINK_LAYER_ADDR);
            bytes.push(2);
            put_u32(bytes, (addr / 0x1_0000_0000) as u32);
            put_u32(bytes, (addr % 0x1_0000_0000) as u32);
            put_zeros(bytes, 6);
        },
        _ => {},
    }
    assert(bytes@ =~= old(bytes)@ + lladdr_option(addr));
}

/// The header that counts toward the checksum of an ICMPv6 message without being
/// sent.
pub open spec fn ipv6_pseudo_header(src: Ipv6Address, dst: Ipv6Address, len: int) -> Seq<u8> {
    src.octets() + dst.octets() + be32(len) + seq![0u8, 0u8, 0u8, IP_PROTOCOL_ICMPV6]
}

/// The part of a router solicitation behind the checksum: four reserved bytes
/// and the link-layer address of the sender.
pub open spec fn router_solicit_rest(hardware_addr: HardwareAddress) -> Seq<u8> {
    zeros(4) + lladdr_option(hardware_addr)
}

/// The checksum of a router solicitation.
pub open spec fn router_solicit_checksum(
    src: Ipv6Address,
    dst: Ipv6Address,
    hardware_addr: HardwareAddress,
) -> int {
    let rest = router_solicit_rest(hardware_addr);
    internet_checksum(
        word_sum(ipv6_pseudo_header(src, dst, (4 + rest.len()) as int)) + word_sum(
            seq![ICMPV6_ROUTER_SOLICIT, 0u8],
        ) + word_sum(rest),
    )
}

/// A router solicitation. With `offload` the device fills the checksum in, so it
/// is left zero.
pub open spec fn router_solicit(
    src: Ipv6Address,
    dst: Ipv6Address,
    hardware_addr: HardwareAddress,
    offload: bool,
) -> Seq<u8> {
    seq![ICMPV6_ROUTER_SOLICIT, 0u8] + be16(
        if offload {
            0
        } else {
            router_solicit_checksum(src, dst, hardware_addr)
        },
    ) + router_solicit_rest(hardware_addr)
}

/// Build a router solicitation.
pub fn build_router_solicit(
    src: Ipv6Address,
    dst: Ipv6Address,
    hardware_addr: HardwareAddress,
    offload: bool,
) -> (message: Vec<u8>)
    ensures
        message@ == router_solicit(src, dst, hardware_addr, offload),
        8 <= message@.len() <= 24,
{
    let mut rest: Vec<u8> = Vec::new();
    put_zeros(&mut rest, 4);
    put_lladdr_option(&mut rest, hardware_addr);
    assert(rest@ =~= router_solicit_rest(hardware_addr));
    let mut message: Vec<u8> = Vec::new();
    message.push(ICMPV6_ROUTER_SOLICIT);
    message.push(0);
    assert(message@ =~= seq![ICMPV6_ROUTER_SOLICIT, 0u8]);
    let checksum: u16 = if offload {
        0
    } else {
        let mut pseudo: Vec<u8> = Vec::new();
        src.put(&mut pseudo);
        dst.put(&mut pseudo);
        put_u32(&mut pseudo, 4 + rest.len() as u32);
        pseudo.push(0);
        pseudo.push(0);
        pseudo.push(0);
        pseudo.push(IP_PROTOCOL_ICMPV6);
        assert(pseudo@ =~= ipv6_pseudo_header(src, dst, (4 + rest@.len()) as int));
        checksum_of(
            sum_words(pseudo.as_slice()) + sum_words(message.as_slice()) + sum_words(
                rest.as_slice(),
            ),
        )
    };
    put_u16(&mut message, checksum);
    put_slice(&mut message, rest.as_slice());
    assert(message@ =~= router_solicit(src, dst, hardware_addr, offload));
    message
}

/// A solicitation whose checksum the stack filled in verifies.
pub proof fn router_solicit_verifies(
    src: Ipv6Address,
    dst: Ipv6Address,
    hardware_addr: HardwareAddress,
)
    ensures
        sum_is_intact(
            word_sum(
                ipv6_pseudo_header(
                    src,
                    dst,
                    router_solicit(src, dst, hardware_addr, false).len() as int,
                ),
            ) + word_sum(router_solicit(src, dst, hardware_addr, false)),
        ),
{
    let start = seq![ICMPV6_ROUTER_SOLICIT, 0u8];
    let rest = router_solicit_rest(hardware_addr);
    let checksum = router_solicit_checksum(src, dst, hardware_addr);
    lemma_checksum_is_intact(
        word_sum(ipv6_pseudo_header(src, dst, (4 + rest.len()) as int)) + word_sum(start)
            + word_sum(rest),
    );
    lemma_word_sum_add(start, be16(checksum));
    lemma_word_sum_add(start + be16(checksum), rest);
    lemma_word_sum_pair(be16(checksum));
}

} // verus!

//! IPv6 addresses and subnets.

use super::bytes::{be32, put_u32};
use vstd::prelude::*;

verus! {

/// An IPv6 address.
#[derive(Clone, Copy, PartialEq, Eq, Structural, Debug)]
pub struct Ipv6Address {
    /// The address as an integer, the first octet the most significant.
    pub bits: u128,
}

/// The scope of an IPv6 address.
#[derive(Clone, Copy, PartialEq, Eq, Structural, Debug)]
pub enum Ipv6MulticastScope {
    InterfaceLocal,
    LinkLocal,
    AdminLocal,
    SiteLocal,
    OrganizationLocal,
    Global,
    Unknown,
}

impl Ipv6MulticastScope {
    /// The scope with the given number.
    pub open spec fn numbered(number: int) -> Ipv6MulticastScope {
        if number == 1 {
            Ipv6MulticastScope::InterfaceLocal
        } else if number == 2 {
            Ipv6MulticastScope::LinkLocal
        } else if number == 4 {
            Ipv6MulticastScope::AdminLocal
        } else if number == 5 {
            Ipv6MulticastScope::SiteLocal
        } else if number == 8 {
            Ipv6MulticastScope::OrganizationLocal
        } else if number == 0xe {
            Ipv6MulticastScope::Global
        } else {
            Ipv6MulticastScope::Unknown
        }
    }

    /// The number of the scope: the larger, the wider.
    pub open spec fn number(self) -> u8 {
        match self {
            Ipv6MulticastScope::InterfaceLocal => 1,
            Ipv6MulticastScope::LinkLocal => 2,
            Ipv6MulticastScope::AdminLocal => 4,
            Ipv6MulticastScope::SiteLocal => 5,
            Ipv6MulticastScope::OrganizationLocal => 8,
            Ipv6MulticastScope::Global => 0xe,
            Ipv6MulticastScope::Unknown => 0xff,
        }
    }

    /// The scope with the given number.
    pub fn from_number(number: u8) -> (scope: Ipv6MulticastScope)
        ensures
            scope == Self::numbered(number as int),
    {
        match number {
            1 => Ipv6MulticastScope::InterfaceLocal,
            2 => Ipv6MulticastScope::LinkLocal,
            4 => Ipv6MulticastScope::AdminLocal,
            5 => Ipv6MulticastScope::SiteLocal,
            8 => Ipv6MulticastScope::OrganizationLocal,
            0xe => Ipv6MulticastScope::Global,
            _ => Ipv6MulticastScope::Unknown,
        }
    }

    /// The number of the scope.
    pub fn to_number(self) -> (number: u8)
        ensures
            number == self.number(),
    {
        match self {
            Ipv6MulticastScope::InterfaceLocal => 1,
            Ipv6MulticastScope::LinkLocal => 2,
            Ipv6MulticastScope::AdminLocal => 4,
            Ipv6MulticastScope::SiteLocal => 5,
            Ipv6MulticastScope::OrganizationLocal => 8,
            Ipv6MulticastScope::Global => 0xe,
            Ipv6MulticastScope::Unknown => 0xff,
        }
    }
}

/// How many low bits have to be dropped from `a` and `b` until they are equal.
pub open spec fn differing_bits(a: nat, b: nat) -> nat
    decreases a + b,
{
    if a == b {
        0
    } else {
        1 + differing_bits(a / 2, b / 2)
    }
}

/// Addresses differ in no more bits than they have.
pub proof fn lemma_differing_bits(a: nat, b: nat, width: nat)
    requires
        a < vstd::arithmetic::power2::pow2(width),
        b < vstd::arithmetic::power2::pow2(width),
    ensures
        differing_bits(a, b) <= width,
    decreases width,
{
    vstd::arithmetic::power2::lemma2_to64();
    if width > 0 && a != b {
        vstd::arithmetic::power2::lemma_pow2_unfold(width);
        lemma_differing_bits(a / 2, b / 2, (width - 1) as nat);
    }
}

impl Ipv6Address {
    /// The address `::`.
    pub open spec fn any() -> Ipv6Address {
        Ipv6Address { bits: 0 }
    }

    /// The address `::1`.
    pub open spec fn loopback() -> Ipv6Address {
        Ipv6Address { bits: 1 }
    }

    /// The address `ff02::1`, the group every node of the link is in.
    pub open spec fn all_nodes() -> Ipv6Address {
        Ipv6Address { bits: 0xff02_0000_0000_0000_0000_0000_0000_0001 }
    }

    /// The address `ff02::2`, the group every router of the link is in.
    pub open spec fn all_routers() -> Ipv6Address {
        Ipv6Address { bits: 0xff02_0000_0000_0000_0000_0000_0000_0002 }
    }

    /// The address with the given 16-bit segments.
    pub fn new(a: u16, b: u16, c: u16, d: u16, e: u16, f: u16, g: u16, h: u16) -> (addr: Ipv6Address)
        ensures
            addr.bits == a * 0x1_0000_0000_0000_0000_0000_0000_0000 + b
                * 0x1_0000_0000_0000_0000_0000_0000 + c * 0x1_0000_0000_0000_0000_0000 + d
                * 0x1_0000_0000_0000_0000 + e * 0x1_0000_0000_0000 + f * 0x1_0000_0000 + g * 0x1_0000
                + h,
    {
        Ipv6Address {
            bits: a as u128 * 0x1_0000_0000_0000_0000_0000_0000_0000 + b as u128
                * 0x1_0000_0000_0000_0000_0000_0000 + c as u128 * 0x1_0000_0000_0000_0000_0000 + d
                as u128 * 0x1_0000_0000_0000_0000 + e as u128 * 0x1_0000_0000_0000 + f as u128
                * 0x1_0000_0000 + g as u128 * 0x1_0000 + h as u128,
        }
    }

    /// The unspecified address, `::`.
    pub fn unspecified() -> (addr: Ipv6Address)
        ensures
            addr == Self::any(),
    {
        Ipv6Address { bits: 0 }
    }

    /// The loopback address, `::1`.
    pub fn localhost() -> (addr: Ipv6Address)
        ensures
            addr == Self::loopback(),
    {
        Ipv6Address { bits: 1 }
    }

    /// The group of the routers of the link, `ff02::2`.
    pub fn link_local_all_routers() -> (addr: Ipv6Address)
        ensures
            addr == Self::all_routers(),
    {
        Ipv6Address { bits: 0xff02_0000_0000_0000_0000_0000_0000_0002 }
    }

    /// The group of the nodes of the link, `ff02::1`.
    pub fn link_local_all_nodes() -> (addr: Ipv6Address)
        ensures
            addr == Self::all_nodes(),
    {
        Ipv6Address { bits: 0xff02_0000_0000_0000_0000_0000_0000_0001 }
    }

    /// The address as bytes.
    pub open spec fn octets(self) -> Seq<u8> {
        be32(self.bits as int / 0x1_0000_0000_0000_0000_0000_0000) + be32(
            (self.bits as int / 0x1_0000_0000_0000_0000) % 0x1_0000_0000,
        ) + be32((self.bits as int / 0x1_0000_0000) % 0x1_0000_0000) + be32(
            self.bits as int % 0x1_0000_0000,
        )
    }

    /// Append the address to `bytes`.
    pub fn put(&self, bytes: &mut Vec<u8>)
        ensures
            final(bytes)@ == old(bytes)@ + self.octets(),
    {
        put_u32(bytes, (self.bits / 0x1_0000_0000_0000_0000_0000_0000) as u32);
        put_u32(bytes, ((self.bits / 0x1_0000_0000_0000_0000) % 0x1_0000_0000) as u32);
        put_u32(bytes, ((self.bits / 0x1_0000_0000) % 0x1_0000_0000) as u32);
        put_u32(bytes, (self.bits % 0x1_0000_0000) as u32);
        assert(bytes@ =~= old(bytes)@ + self.octets());
    }

    /// Whether this is `::`.
    pub fn is_unspecified(&self) -> (r: bool)
        ensures
            r == (*self == Self::any()),
    {
        self.bits == 0
    }

    /// Whether this is `::1`.
    pub fn is_loopback(&self) -> (r: bool)
        ensures
            r == (*self == Self::loopback()),
    {
        self.bits == 1
    }

    /// Whether this is an address of `ff00::/8`.
    pub open spec fn in_multicast(self) -> bool {
        self.bits / 0x100_0000_0000_0000_0000_0000_0000_0000 == 0xff
    }

    /// Whether this is a multicast address.
    pub fn is_multicast(&self) -> (r: bool)
        ensures
            r == self.in_multicast(),
    {
        self.bits / 0x100_0000_0000_0000_0000_0000_0000_0000 == 0xff
    }

    /// Whether this is an address of `fe80::/10`.
    pub open spec fn link_local(self) -> bool {
        self.bits / 0x40_0000_0000_0000_0000_0000_0000_0000 == 0x3fa
    }

    /// Whether this is a link-local address.
    pub fn is_link_local(&self) -> (r: bool)
        ensures
            r == self.link_local(),
    {
        self.bits / 0x40_0000_0000_0000_0000_0000_0000_0000 == 0x3fa
    }

    /// Whether this can be the address of one host: it is neither multicast nor
    /// unspecified.
    pub open spec fn unicast(self) -> bool {
        self != Self::any() && !self.in_multicast()
    }

    /// Whether this is a unicast address.
    pub fn x_is_unicast(&self) -> (r: bool)
        ensures
            r == self.unicast(),
    {
        !(self.is_multicast() || self.is_unspecified())
    }

    /// Whether this is a solicited-node multicast address: one of
    /// `ff02::1:ff00:0/104`.
    pub open spec fn solicited_node(self) -> bool {
        self.bits / 0x100_0000 == 0xff02_0000_0000_0000_0000_0001_ff
    }

    /// Whether this is a solicited-node multicast address.
    pub fn is_solicited_node_multicast(&self) -> (r: bool)
        ensures
            r == self.solicited_node(),
    {
        self.bits / 0x100_0000 == 0xff02_0000_0000_0000_0000_0001_ff
    }

    /// The scope of the address. Multicast addresses carry it, unicast ones are
    /// link-local (`fe80::/10`) or global (`fc00::/7` and `2000::/3`).
    pub open spec fn scope(self) -> Ipv6MulticastScope {
        if self.in_multicast() {
            Ipv6MulticastScope::numbered(
                (self.bits as int / 0x1_0000_0000_0000_0000_0000_0000_0000) % 16,
            )
        } else if self.link_local() {
            Ipv6MulticastScope::LinkLocal
        } else if self.bits / 0x200_0000_0000_0000_0000_0000_0000_0000 == 0x7e || self.bits
            / 0x2000_0000_0000_0000_0000_0000_0000_0000 == 1 {
            Ipv6MulticastScope::Global
        } else {
            Ipv6MulticastScope::Unknown
        }
    }

    /// The scope of the address.
    pub fn x_multicast_scope(&self) -> (scope: Ipv6MulticastScope)
        ensures
            scope == self.scope(),
    {
        if self.is_multicast() {
            Ipv6MulticastScope::from_number(
                ((self.bits / 0x1_0000_0000_0000_0000_0000_0000_0000) % 16) as u8,
            )
        } else if self.is_link_local() {
            Ipv6MulticastScope::LinkLocal
        } else if self.bits / 0x200_0000_0000_0000_0000_0000_0000_0000 == 0x7e || self.bits
            / 0x2000_0000_0000_0000_0000_0000_0000_0000 == 1 {
            Ipv6MulticastScope::Global
        } else {
            Ipv6MulticastScope::Unknown
        }
    }

    /// How many leading bits two addresses have in common.
    pub open spec fn common_bits(self, other: Ipv6Address) -> int {
        128 - differing_bits(self.bits as nat, other.bits as nat)
    }

    /// How many leading bits two addresses have in common.
    pub fn common_prefix(&self, other: &Ipv6Address) -> (bits: u8)
        ensures
            bits == self.common_bits(*other),
            bits <= 128,
    {
        let mut a: u128 = self.bits;
        let mut b: u128 = other.bits;
        let mut bits: u8 = 128;
        proof {
            vstd::arithmetic::power2::lemma2_to64();
            vstd::arithmetic::power2::lemma_pow2_adds(64, 64);
            assert(0x1_0000_0000_0000_0000 * 0x1_0000_0000_0000_0000
                == 0x1_0000_0000_0000_0000_0000_0000_0000_0000int);
            vstd::arithmetic::power2::lemma2_to64_rest();
            lemma_differing_bits(a as nat, b as nat, 128);
        }
        while a != b
            invariant
                differing_bits(a as nat, b as nat) <= bits <= 128,
                bits - differing_bits(a as nat, b as nat) == self.common_bits(*other),
            decreases a + b,
        {
            a = a / 2;
            b = b / 2;
            bits = bits - 1;
        }
        bits
    }
}

/// An IPv6 address with the length of its subnet's prefix.
#[derive(Clone, Copy, PartialEq, Eq, Structural, Debug)]
pub struct Ipv6Cidr {
    pub address: Ipv6Address,
    pub prefix_len: u8,
}

impl Ipv6Cidr {
    /// The prefix is no longer than an address.
    pub open spec fn wf(self) -> bool {
        self.prefix_len <= 128
    }

    /// Whether `addr` is in the subnet: it shares the prefix.
    pub open spec fn covers(self, addr: Ipv6Address) -> bool {
        self.address.common_bits(addr) >= self.prefix_len
    }

    /// An address with its prefix length.
    pub fn new(address: Ipv6Address, prefix_len: u8) -> (cidr: Ipv6Cidr)
        requires
            prefix_len <= 128,
        ensures
            cidr.address == address,
            cidr.prefix_len == prefix_len,
            cidr.wf(),
    {
        Ipv6Cidr { address, prefix_len }
    }

    /// The address.
    pub fn address(&self) -> (addr: Ipv6Address)
        ensures
            addr == self.address,
    {
        self.address
    }

    /// The length of the prefix.
    pub fn prefix_len(&self) -> (len: u8)
        ensures
            len == self.prefix_len,
    {
        self.prefix_len
    }

    /// Whether the subnet contains `addr`.
    pub fn contains_addr(&self, addr: &Ipv6Address) -> (r: bool)
        ensures
            r == self.covers(*addr),
    {
        self.address.common_prefix(addr) >= self.prefix_len
    }
}

} // verus!

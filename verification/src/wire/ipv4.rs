//! IPv4 addresses and subnets.

use super::bytes::be32;
use vstd::arithmetic::power2::{
    lemma2_to64, lemma_pow2_pos, lemma_pow2_strictly_increases, lemma_pow2_unfold, pow2,
};
use vstd::prelude::*;

verus! {

/// An IPv4 address.
#[derive(Clone, Copy, PartialEq, Eq, Structural, Debug)]
pub struct Ipv4Address {
    /// The address as an integer, the first octet the most significant.
    pub bits: u32,
}

impl Ipv4Address {
    /// The address `0.0.0.0`.
    pub open spec fn any() -> Ipv4Address {
        Ipv4Address { bits: 0 }
    }

    /// The address `255.255.255.255`.
    pub open spec fn everyone() -> Ipv4Address {
        Ipv4Address { bits: 0xffff_ffff }
    }

    /// The address `224.0.0.1`, the group every system is in.
    pub open spec fn all_systems_group() -> Ipv4Address {
        Ipv4Address { bits: 0xe000_0001 }
    }

    /// The address with the given octets.
    pub fn new(a: u8, b: u8, c: u8, d: u8) -> (addr: Ipv4Address)
        ensures
            addr.bits == a * 0x100_0000 + b * 0x1_0000 + c * 0x100 + d,
    {
        Ipv4Address {
            bits: a as u32 * 0x100_0000 + b as u32 * 0x1_0000 + c as u32 * 0x100 + d as u32,
        }
    }

    /// The unspecified address, `0.0.0.0`.
    pub fn unspecified() -> (addr: Ipv4Address)
        ensures
            addr == Self::any(),
    {
        Ipv4Address { bits: 0 }
    }

    /// The limited broadcast address, `255.255.255.255`.
    pub fn broadcast() -> (addr: Ipv4Address)
        ensures
            addr == Self::everyone(),
    {
        Ipv4Address { bits: 0xffff_ffff }
    }

    /// The group every system is in, `224.0.0.1`.
    pub fn multicast_all_systems() -> (addr: Ipv4Address)
        ensures
            addr == Self::all_systems_group(),
    {
        Ipv4Address { bits: 0xe000_0001 }
    }

    /// The address as an integer.
    pub fn to_bits(&self) -> (bits: u32)
        ensures
            bits == self.bits,
    {
        self.bits
    }

    /// The address as bytes.
    pub open spec fn octets(self) -> Seq<u8> {
        be32(self.bits as int)
    }

    /// Whether this is `0.0.0.0`.
    pub fn is_unspecified(&self) -> (r: bool)
        ensures
            r == (*self == Self::any()),
    {
        self.bits == 0
    }

    /// Whether this is `255.255.255.255`.
    pub fn is_broadcast(&self) -> (r: bool)
        ensures
            r == (*self == Self::everyone()),
    {
        self.bits == 0xffff_ffff
    }

    /// Whether this is an address of `224.0.0.0/4`.
    pub open spec fn in_multicast(self) -> bool {
        self.bits / 0x1000_0000 == 0xe
    }

    /// Whether this is a multicast address.
    pub fn is_multicast(&self) -> (r: bool)
        ensures
            r == self.in_multicast(),
    {
        self.bits / 0x1000_0000 == 0xe
    }

    /// Whether this can be the address of one host: it is not unspecified,
    /// broadcast or multicast.
    pub open spec fn unicast(self) -> bool {
        self != Self::any() && self != Self::everyone() && !self.in_multicast()
    }

    /// Whether this is a unicast address.
    pub fn x_is_unicast(&self) -> (r: bool)
        ensures
            r == self.unicast(),
    {
        !(self.is_broadcast() || self.is_multicast() || self.is_unspecified())
    }
}

/// An IPv4 address with the length of its subnet's prefix.
#[derive(Clone, Copy, PartialEq, Eq, Structural, Debug)]
pub struct Ipv4Cidr {
    pub address: Ipv4Address,
    pub prefix_len: u8,
}

/// Two to the power of `exponent`.
fn power_of_two(exponent: u8) -> (power: u64)
    requires
        exponent <= 32,
    ensures
        power == pow2(exponent as nat),
        1 <= power <= 0x1_0000_0000,
{
    let mut power: u64 = 1;
    let mut done: u8 = 0;
    proof {
        lemma2_to64();
    }
    while done < exponent
        invariant
            done <= exponent <= 32,
            power == pow2(done as nat),
            power <= 0x1_0000_0000,
            pow2(32) == 0x1_0000_0000,
        decreases exponent - done,
    {
        proof {
            lemma_pow2_unfold((done + 1) as nat);
            if done + 1 < 32 {
                lemma_pow2_strictly_increases((done + 1) as nat, 32);
            }
        }
        power = power * 2;
        done += 1;
    }
    proof {
        lemma_pow2_pos(exponent as nat);
    }
    power
}

impl Ipv4Cidr {
    /// The prefix is no longer than an address.
    pub open spec fn wf(self) -> bool {
        self.prefix_len <= 32
    }

    /// How many addresses the subnet has.
    pub open spec fn size(self) -> int {
        pow2((32 - self.prefix_len) as nat) as int
    }

    /// The first address of the subnet.
    pub open spec fn first(self) -> int {
        self.address.bits - self.address.bits as int % self.size()
    }

    /// Whether `addr` is in the subnet.
    pub open spec fn covers(self, addr: Ipv4Address) -> bool {
        self.first() <= addr.bits < self.first() + self.size()
    }

    /// The broadcast address of the subnet: its last one, if it has more than two.
    pub open spec fn broadcast_addr(self) -> Option<Ipv4Address> {
        if self.prefix_len >= 31 {
            None
        } else {
            Some(Ipv4Address { bits: (self.first() + self.size() - 1) as u32 })
        }
    }

    /// The network address: the first one of the subnet.
    pub open spec fn network_addr(self) -> Ipv4Address {
        Ipv4Address { bits: self.first() as u32 }
    }

    /// The mask that keeps the prefix.
    pub open spec fn mask(self) -> Ipv4Address {
        Ipv4Address { bits: (0x1_0000_0000 - self.size()) as u32 }
    }

    /// An address with its prefix length.
    pub fn new(address: Ipv4Address, prefix_len: u8) -> (cidr: Ipv4Cidr)
        requires
            prefix_len <= 32,
        ensures
            cidr.address == address,
            cidr.prefix_len == prefix_len,
            cidr.wf(),
    {
        Ipv4Cidr { address, prefix_len }
    }

    /// The address.
    pub fn address(&self) -> (addr: Ipv4Address)
        ensures
            addr == self.address,
    {
        self.address
    }

    /// The subnet lies within the addresses, and the size divides evenly.
    pub proof fn lemma_bounds(self)
        requires
            self.wf(),
        ensures
            1 <= self.size() <= 0x1_0000_0000,
            0 <= self.first() <= self.address.bits < self.first() + self.size(),
            self.first() + self.size() <= 0x1_0000_0000,
            self.first() % self.size() == 0,
            self.prefix_len == 0 <==> self.size() == 0x1_0000_0000,
    {
        lemma2_to64();
        let k = (32 - self.prefix_len) as nat;
        lemma_pow2_pos(k);
        if k < 32 {
            lemma_pow2_strictly_increases(k, 32);
        }
        let size = self.size();
        let bits = self.address.bits as int;
        vstd::arithmetic::power2::lemma_pow2_adds(k, self.prefix_len as nat);
        let count = pow2(self.prefix_len as nat) as int;
        assert(size * count == 0x1_0000_0000);
        vstd::arithmetic::div_mod::lemma_fundamental_div_mod(bits, size);
        vstd::arithmetic::div_mod::lemma_mod_bound(bits, size);
        let q = bits / size;
        assert(self.first() == size * q);
        assert(q >= 0) by (nonlinear_arith)
            requires
                size * q + bits % size == bits,
                bits % size < size,
                bits >= 0,
                size >= 1,
        ;
        assert(self.first() >= 0) by (nonlinear_arith)
            requires
                self.first() == size * q,
                q >= 0,
                size >= 1,
        ;
        assert(q < count) by (nonlinear_arith)
            requires
                size * q <= bits,
                bits < size * count,
                size >= 1,
        ;
        assert(size * q + size <= size * count) by (nonlinear_arith)
            requires
                q < count,
                size >= 1,
        ;
        assert((size * q) % size == 0) by {
            vstd::arithmetic::div_mod::lemma_mod_multiples_basic(q, size);
            vstd::arithmetic::mul::lemma_mul_is_commutative(q, size);
        }
    }

    /// The number of addresses of the subnet.
    fn exec_size(&self) -> (size: u64)
        requires
            self.wf(),
        ensures
            size == self.size(),
    {
        power_of_two(32 - self.prefix_len)
    }

    /// The first address of the subnet.
    fn exec_first(&self) -> (first: u64)
        requires
            self.wf(),
        ensures
            first == self.first(),
            first <= self.address.bits,
    {
        proof {
            self.lemma_bounds();
        }
        let size: u64 = self.exec_size();
        self.address.bits as u64 - self.address.bits as u64 % size
    }

    /// Whether the subnet contains `addr`.
    pub fn contains_addr(&self, addr: &Ipv4Address) -> (r: bool)
        requires
            self.wf(),
        ensures
            r == self.covers(*addr),
    {
        proof {
            self.lemma_bounds();
        }
        let first: u64 = self.exec_first();
        let size: u64 = self.exec_size();
        first <= addr.bits as u64 && (addr.bits as u64) < first + size
    }

    /// The subnet itself: its network address, with the same prefix length.
    pub fn network(&self) -> (net: Ipv4Cidr)
        requires
            self.wf(),
        ensures
            net.address == self.network_addr(),
            net.address.bits == self.first(),
            net.prefix_len == self.prefix_len,
    {
        proof {
            self.lemma_bounds();
        }
        let first: u64 = self.exec_first();
        Ipv4Cidr { address: Ipv4Address { bits: first as u32 }, prefix_len: self.prefix_len }
    }

    /// The broadcast address of the subnet, if it has one.
    pub fn broadcast(&self) -> (addr: Option<Ipv4Address>)
        requires
            self.wf(),
        ensures
            addr == self.broadcast_addr(),
    {
        if self.prefix_len >= 31 {
            return None;
        }
        proof {
            self.lemma_bounds();
        }
        let last: u64 = self.exec_first() + self.exec_size() - 1;
        Some(Ipv4Address { bits: last as u32 })
    }

    /// The subnet mask.
    pub fn netmask(&self) -> (mask: Ipv4Address)
        requires
            self.wf(),
        ensures
            mask == self.mask(),
    {
        proof {
            self.lemma_bounds();
        }
        let bits: u64 = 0x1_0000_0000 - self.exec_size();
        // A prefix of no bits has an empty mask.
        if self.prefix_len == 0 {
            assert(self.size() == 0x1_0000_0000);
            return Ipv4Address { bits: 0 };
        }
        Ipv4Address { bits: bits as u32 }
    }
}

/// A subnet contains its own address, its network address and, where it has
/// one, its broadcast address.
pub proof fn subnet_contains_its_addresses(cidr: Ipv4Cidr)
    requires
        cidr.wf(),
    ensures
        cidr.covers(cidr.address),
        cidr.covers(cidr.network_addr()),
        cidr.broadcast_addr() matches Some(addr) ==> cidr.covers(addr),
{
    cidr.lemma_bounds();
}

} // verus!

//! What holds of subnets.

use super::ip::{IpAddress, IpCidr};
use super::ipv4::{Ipv4Address, Ipv4Cidr};
use super::ipv6::{differing_bits, Ipv6Address};
use vstd::arithmetic::div_mod::{
    lemma_div_denominator, lemma_fundamental_div_mod, lemma_fundamental_div_mod_converse,
    lemma_mod_bound,
};
use vstd::arithmetic::power2::{lemma_pow2_pos, lemma_pow2_unfold, pow2};
use vstd::prelude::*;

verus! {

/// Whether two IPv4 addresses have their first `n` bits in common.
pub open spec fn first_bits_agree_v4(a: Ipv4Address, b: Ipv4Address, n: int) -> bool {
    a.bits as nat / pow2((32 - n) as nat) == b.bits as nat / pow2((32 - n) as nat)
}

/// Whether two IPv6 addresses have their first `n` bits in common.
pub open spec fn first_bits_agree(a: Ipv6Address, b: Ipv6Address, n: int) -> bool {
    a.bits as nat / pow2((128 - n) as nat) == b.bits as nat / pow2((128 - n) as nat)
}

/// Whether an address is of the version of a subnet and shares its prefix.
pub open spec fn shares_prefix(cidr: IpCidr, addr: IpAddress) -> bool {
    match (cidr, addr) {
        (IpCidr::Ipv4(cidr), IpAddress::Ipv4(addr)) => first_bits_agree_v4(
            cidr.address,
            addr,
            cidr.prefix_len as int,
        ),
        (IpCidr::Ipv6(cidr), IpAddress::Ipv6(addr)) => first_bits_agree(
            cidr.address,
            addr,
            cidr.prefix_len as int,
        ),
        _ => false,
    }
}

/// Dropping `m` low bits makes two numbers equal if and only if they differ in no more
/// than those.
proof fn lemma_differing_at_most(a: nat, b: nat, m: nat)
    ensures
        differing_bits(a, b) <= m <==> a / pow2(m) == b / pow2(m),
    decreases m,
{
    lemma_pow2_pos(m);
    if m == 0 {
        vstd::arithmetic::power2::lemma2_to64();
        assert(a / 1 == a && b / 1 == b);
    } else {
        lemma_pow2_unfold(m);
        lemma_pow2_pos((m - 1) as nat);
        lemma_div_denominator(a as int, 2, pow2((m - 1) as nat) as int);
        lemma_div_denominator(b as int, 2, pow2((m - 1) as nat) as int);
        lemma_differing_at_most(a / 2, b / 2, (m - 1) as nat);
    }
}

/// Two addresses share at least `n` leading bits if and only if their first `n` bits
/// are the same.
pub proof fn common_bits_are_leading_bits(a: Ipv6Address, b: Ipv6Address, n: int)
    requires
        0 <= n <= 128,
    ensures
        a.common_bits(b) >= n <==> first_bits_agree(a, b, n),
{
    lemma_differing_at_most(a.bits as nat, b.bits as nat, (128 - n) as nat);
}

/// A block of `size` numbers around `a` that starts at a multiple of `size` holds what
/// has the same quotient.
proof fn lemma_block(a: int, b: int, size: int)
    requires
        0 <= a,
        0 <= b,
        1 <= size,
    ensures
        a - a % size <= b < a - a % size + size <==> a / size == b / size,
        (a - a % size) / size == a / size,
        (a - a % size) % size == 0,
        (a - a % size + size - 1) / size == a / size,
        (a - a % size + size - 1) % size == size - 1,
{
    lemma_fundamental_div_mod(a, size);
    lemma_fundamental_div_mod(b, size);
    lemma_mod_bound(a, size);
    lemma_mod_bound(b, size);
    let q = a / size;
    let first = a - a % size;
    assert(first == q * size) by (nonlinear_arith)
        requires
            a == size * q + a % size,
            first == a - a % size,
    ;
    lemma_fundamental_div_mod_converse(first, size, q, 0);
    assert(first + size - 1 == q * size + (size - 1));
    lemma_fundamental_div_mod_converse(first + size - 1, size, q, size - 1);
    if first <= b < first + size {
        assert(b == q * size + (b - first));
        lemma_fundamental_div_mod_converse(b, size, q, b - first);
    }
    if q == b / size {
        assert(size * (b / size) == q * size) by (nonlinear_arith)
            requires
                q == b / size,
        ;
    }
}

/// A subnet is made of the addresses that share its prefix.
pub proof fn subnet_is_its_prefix(cidr: IpCidr, addr: IpAddress)
    requires
        cidr.wf(),
    ensures
        cidr.covers(addr) <==> shares_prefix(cidr, addr),
{
    match (cidr, addr) {
        (IpCidr::Ipv4(cidr), IpAddress::Ipv4(addr)) => {
            cidr.lemma_bounds();
            lemma_block(cidr.address.bits as int, addr.bits as int, cidr.size());
        },
        (IpCidr::Ipv6(cidr), IpAddress::Ipv6(addr)) => {
            common_bits_are_leading_bits(cidr.address, addr, cidr.prefix_len as int);
        },
        _ => {},
    }
}

/// The network address of an IPv4 subnet shares its prefix and has no other bit set. The
/// broadcast address shares its prefix and has every other bit set, and there is one if
/// and only if there are at least two other bits. The mask has the bits of the prefix
/// set, and no other.
pub proof fn special_addresses_of_a_subnet(cidr: Ipv4Cidr)
    requires
        cidr.wf(),
    ensures
        ({
            let rest = pow2((32 - cidr.prefix_len) as nat) as int;
            &&& first_bits_agree_v4(cidr.network_addr(), cidr.address, cidr.prefix_len as int)
            &&& cidr.network_addr().bits as int % rest == 0
            &&& cidr.broadcast_addr() is Some <==> cidr.prefix_len <= 30
            &&& cidr.broadcast_addr() matches Some(last) ==> first_bits_agree_v4(
                last,
                cidr.address,
                cidr.prefix_len as int,
            ) && last.bits as int % rest == rest - 1
            &&& cidr.prefix_len > 0 ==> cidr.mask().bits + rest == 0x1_0000_0000
        }),
{
    cidr.lemma_bounds();
    lemma_block(cidr.address.bits as int, 0, cidr.size());
}

/// A unicast IPv4 address is neither `0.0.0.0`, nor one of `224.0.0.0` to
/// `239.255.255.255`, nor `255.255.255.255`. A unicast IPv6 address is neither `::` nor
/// one of `ff00::/8`. What is for many hosts is the rest, but for the unspecified
/// addresses.
pub proof fn kinds_of_addresses(addr: IpAddress)
    ensures
        addr matches IpAddress::Ipv4(v4) ==> {
            &&& addr.unicast() <==> v4.bits != 0 && v4.bits != 0xffff_ffff && !(0xe000_0000
                <= v4.bits <= 0xefff_ffff)
            &&& addr.for_many() <==> v4.bits == 0xffff_ffff || 0xe000_0000 <= v4.bits
                <= 0xefff_ffff
            &&& addr.is_any() <==> v4.bits == 0
            &&& v4.unicast() == addr.unicast()
        },
        addr matches IpAddress::Ipv6(v6) ==> {
            &&& addr.unicast() <==> 0 < v6.bits < 0xff00_0000_0000_0000_0000_0000_0000_0000
            &&& addr.for_many() <==> v6.bits >= 0xff00_0000_0000_0000_0000_0000_0000_0000
            &&& addr.is_any() <==> v6.bits == 0
        },
        addr.unicast() <==> !addr.for_many() && !addr.is_any(),
{
}

} // verus!

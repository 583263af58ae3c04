//! Compile-time configuration.
//!
//! The sizes of the packet pool, of the buffers in it, and of the tables the
//! stack keeps.

use vstd::prelude::*;

verus! {

/// Number of buffers in the packet pool.
///
/// Every packet in flight takes one buffer: in a driver's receive ring, in a
/// socket's queue, or waiting to be sent. When they are all in use, allocating
/// another one fails and packets are dropped.
pub const PACKET_BUF_COUNT: usize = 16;

/// Alignment of the buffer in a packet, in bytes.
pub const PACKET_BUF_ALIGN: usize = 1;

/// Headroom kept in front of every packet for the driver, as configured.
pub const CONFIGURED_DRIVER_HEADROOM: usize = 0;

/// Size of a packet buffer, as configured: the largest Ethernet frame.
pub const CONFIGURED_PACKET_BUF_SIZE: usize = 1514;

/// Default headroom of the buffer in a packet, in bytes.
pub const PACKET_BUF_DRIVER_HEADROOM: usize = 0;

/// Size of the buffer in a packet, in bytes.
///
/// This is the largest frame that can be sent or received, headers included.
/// It also caps the MTU of every interface.
pub const PACKET_BUF_SIZE: usize = 1514;

/// Number of interfaces a stack can hold.
pub const IFACE_COUNT: usize = 4;

/// Number of IP addresses an interface can hold.
pub const IFACE_ADDR_COUNT: usize = 8;

/// Number of entries in the routing table.
pub const ROUTE_COUNT: usize = 8;

/// Number of raw sockets a stack can hold.
pub const RAW_SOCKET_COUNT: usize = 4;

/// Number of packets a raw socket queues for the application.
pub const RAW_RX_QUEUE_COUNT: usize = 4;

/// Number of TCP listeners a stack can hold.
pub const TCP_LISTENER_COUNT: usize = 4;

/// Number of connection attempts a TCP listener queues.
pub const TCP_LISTENER_BACKLOG: usize = 4;

/// Number of prefixes SLAAC keeps track of.
pub const SLAAC_PREFIX_COUNT: usize = 4;

/// Number of default routers SLAAC keeps track of.
pub const SLAAC_ROUTER_COUNT: usize = 4;

/// Number of entries in the DHCP server's lease table.
pub const DHCP_SERVER_LEASE_COUNT: usize = 16;

/// Longest client identifier the DHCP server stores, in bytes.
pub const DHCP_SERVER_CLIENT_ID_SIZE: usize = 32;

/// Number of DNS servers the DHCP server can name to its clients.
pub const DHCP_MAX_DNS_SERVER_COUNT: usize = 3;

/// The headroom that is kept for a driver that asks for `configured` bytes:
/// none if it asks for none, else at least one alignment unit.
pub open spec fn driver_headroom(configured: usize, align: usize) -> usize {
    if configured == 0 {
        0
    } else if align > configured {
        align
    } else {
        configured
    }
}

/// `size` rounded up to a multiple of `align`.
pub open spec fn round_up(size: int, align: int) -> int {
    if size % align == 0 {
        size
    } else {
        size - size % align + align
    }
}

/// The headroom that a driver configured with `cfg_head` bytes gets.
pub fn packet_buf_driver_headroom(cfg_head: usize) -> (headroom: usize)
    ensures
        headroom == driver_headroom(cfg_head, PACKET_BUF_ALIGN),
{
    if cfg_head == 0 {
        0
    } else if PACKET_BUF_ALIGN > cfg_head {
        PACKET_BUF_ALIGN
    } else {
        cfg_head
    }
}

/// The sizes fit together: the driver headroom is the one its configuration
/// gives, the buffer is the configured size rounded up to the alignment plus
/// that headroom, a length in it fits in 16 bits, and it has room for the
/// largest headers.
pub proof fn packet_buf_sizes()
    ensures
        PACKET_BUF_DRIVER_HEADROOM == driver_headroom(CONFIGURED_DRIVER_HEADROOM, PACKET_BUF_ALIGN),
        PACKET_BUF_SIZE == round_up(CONFIGURED_PACKET_BUF_SIZE as int, PACKET_BUF_ALIGN as int)
            + PACKET_BUF_DRIVER_HEADROOM,
        128 <= PACKET_BUF_SIZE <= u16::MAX,
{
}

/// A driver that asks for headroom gets at least what it asks for, and at least
/// one alignment unit.
pub proof fn driver_headroom_suffices(configured: usize, align: usize)
    requires
        configured > 0,
    ensures
        driver_headroom(configured, align) >= configured,
        driver_headroom(configured, align) >= align,
{
}

/// No headroom is kept for a driver that asks for none, and no more than it asks for and an
/// alignment unit for one that does. Rounding up adds less than a unit.
pub proof fn driver_headroom_is_no_more_than_needed(configured: usize, align: usize, size: int)
    ensures
        configured == 0 ==> driver_headroom(configured, align) == 0,
        configured > 0 ==> driver_headroom(configured, align) == configured || driver_headroom(
            configured,
            align,
        ) == align,
        align > 0 ==> size <= round_up(size, align as int) < size + align,
        align > 0 ==> round_up(size, align as int) % align as int == 0,
{
    if align > 0 {
        let unit = align as int;
        vstd::arithmetic::div_mod::lemma_fundamental_div_mod(size, unit);
        let q = size / unit;
        if size % unit != 0 {
            assert(size - size % unit + unit == (q + 1) * unit) by (nonlinear_arith)
                requires
                    size == unit * q + size % unit,
            ;
            vstd::arithmetic::div_mod::lemma_mod_multiples_basic(q + 1, unit);
        }
    }
}

} // verus!

//! Link-layer addresses.

use super::bytes::{read_u64, u64_at};
use crate::iface::Medium;
use vstd::prelude::*;

verus! {

/// An Ethernet address.
#[derive(Clone, Copy, PartialEq, Eq, Structural, Debug)]
pub struct EthernetAddress(pub u8, pub u8, pub u8, pub u8, pub u8, pub u8);

impl EthernetAddress {
    /// The address `ff:ff:ff:ff:ff:ff`.
    pub open spec fn everyone() -> EthernetAddress {
        EthernetAddress(0xff, 0xff, 0xff, 0xff, 0xff, 0xff)
    }

    /// The address as bytes.
    pub open spec fn octets(self) -> Seq<u8> {
        seq![self.0, self.1, self.2, self.3, self.4, self.5]
    }

    /// The address in the six bytes at `at`.
    pub open spec fn at(bytes: Seq<u8>, at: int) -> EthernetAddress {
        EthernetAddress(
            bytes[at],
            bytes[at + 1],
            bytes[at + 2],
            bytes[at + 3],
            bytes[at + 4],
            bytes[at + 5],
        )
    }

    /// The broadcast address.
    pub fn broadcast() -> (addr: EthernetAddress)
        ensures
            addr == Self::everyone(),
    {
        EthernetAddress(0xff, 0xff, 0xff, 0xff, 0xff, 0xff)
    }

    /// Read the address in the six bytes at `at`.
    pub fn read(bytes: &[u8], at: usize) -> (addr: EthernetAddress)
        requires
            at + 6 <= bytes@.len(),
        ensures
            addr == Self::at(bytes@, at as int),
    {
        EthernetAddress(
            bytes[at],
            bytes[at + 1],
            bytes[at + 2],
            bytes[at + 3],
            bytes[at + 4],
            bytes[at + 5],
        )
    }

    /// Append the address to `bytes`.
    pub fn put(&self, bytes: &mut Vec<u8>)
        ensures
            final(bytes)@ == old(bytes)@ + self.octets(),
    {
        bytes.push(self.0);
        bytes.push(self.1);
        bytes.push(self.2);
        bytes.push(self.3);
        bytes.push(self.4);
        bytes.push(self.5);
        assert(bytes@ =~= old(bytes)@ + self.octets());
    }

    /// Whether this can be the address of one station: its group bit is clear.
    pub open spec fn unicast(self) -> bool {
        self.0 % 2 == 0
    }

    /// Whether this is a unicast address.
    pub fn is_unicast(&self) -> (r: bool)
        ensures
            r == self.unicast(),
    {
        self.0 % 2 == 0
    }
}

/// An IEEE 802.15.4 address.
#[derive(Clone, Copy, PartialEq, Eq, Structural, Debug)]
pub enum Ieee802154Address {
    /// No address.
    Absent,
    /// A 16-bit address.
    Short(u16),
    /// A 64-bit address.
    Extended(u64),
}

impl Ieee802154Address {
    /// Whether this is the address of one station: it is there, and it is not the
    /// 16-bit broadcast address.
    pub open spec fn unicast(self) -> bool {
        match self {
            Ieee802154Address::Absent => false,
            Ieee802154Address::Short(addr) => addr != 0xffff,
            Ieee802154Address::Extended(_) => true,
        }
    }

    /// Whether this is a unicast address.
    pub fn is_unicast(&self) -> (r: bool)
        ensures
            r == self.unicast(),
    {
        match *self {
            Ieee802154Address::Absent => false,
            Ieee802154Address::Short(addr) => addr != 0xffff,
            Ieee802154Address::Extended(_) => true,
        }
    }
}

/// The address of an interface on its link.
#[derive(Clone, Copy, PartialEq, Eq, Structural, Debug)]
pub enum HardwareAddress {
    /// No address: an interface that sends and receives IP packets.
    Ip,
    Ethernet(EthernetAddress),
    Ieee802154(Ieee802154Address),
}

/// The modified EUI-64 of an Ethernet address: `ff:fe` in the middle, and the
/// universal/local bit inverted.
pub open spec fn ethernet_eui_64(addr: EthernetAddress) -> Seq<u8> {
    seq![addr.0 ^ 2, addr.1, addr.2, 0xff, 0xfe, addr.3, addr.4, addr.5]
}

/// The modified EUI-64 of a 64-bit address: the universal/local bit inverted.
pub open spec fn extended_eui_64(addr: u64) -> u64 {
    addr ^ 0x0200_0000_0000_0000
}

impl HardwareAddress {
    /// The medium the address is used on.
    pub open spec fn used_on(self) -> Medium {
        match self {
            HardwareAddress::Ip => Medium::Ip,
            HardwareAddress::Ethernet(_) => Medium::Ethernet,
            HardwareAddress::Ieee802154(_) => Medium::Ieee802154,
        }
    }

    /// The medium the address is used on.
    pub fn medium(&self) -> (medium: Medium)
        ensures
            medium == self.used_on(),
    {
        match self {
            HardwareAddress::Ip => Medium::Ip,
            HardwareAddress::Ethernet(_) => Medium::Ethernet,
            HardwareAddress::Ieee802154(_) => Medium::Ieee802154,
        }
    }

    /// Whether this is the address of one station.
    pub open spec fn unicast(self) -> bool {
        match self {
            HardwareAddress::Ip => false,
            HardwareAddress::Ethernet(addr) => addr.unicast(),
            HardwareAddress::Ieee802154(addr) => addr.unicast(),
        }
    }

    /// Whether this is a unicast address.
    pub fn is_unicast(&self) -> (r: bool)
        ensures
            r == self.unicast(),
    {
        match self {
            HardwareAddress::Ip => false,
            HardwareAddress::Ethernet(addr) => addr.is_unicast(),
            HardwareAddress::Ieee802154(addr) => addr.is_unicast(),
        }
    }

    /// The modified EUI-64 interface identifier of the address, as an integer.
    /// Addresses other than 48-bit and 64-bit ones have none.
    pub open spec fn eui_64(self) -> Option<int> {
        match self {
            HardwareAddress::Ethernet(addr) => Some(u64_at(ethernet_eui_64(addr), 0)),
            HardwareAddress::Ieee802154(Ieee802154Address::Extended(addr)) => Some(
                extended_eui_64(addr) as int,
            ),
            _ => None,
        }
    }

    /// The modified EUI-64 interface identifier of the address, as an integer.
    pub fn as_eui_64(&self) -> (id: Option<u64>)
        ensures
            match self.eui_64() {
                Some(expected) => id == Some(expected as u64) && 0 <= expected <= u64::MAX,
                None => id is None,
            },
    {
        match *self {
            HardwareAddress::Ethernet(addr) => {
                let mut bytes: Vec<u8> = Vec::new();
                bytes.push(addr.0 ^ 2);
                bytes.push(addr.1);
                bytes.push(addr.2);
                bytes.push(0xff);
                bytes.push(0xfe);
                bytes.push(addr.3);
                bytes.push(addr.4);
                bytes.push(addr.5);
                assert(bytes@ =~= ethernet_eui_64(addr));
                Some(read_u64(bytes.as_slice(), 0))
            },
            HardwareAddress::Ieee802154(Ieee802154Address::Extended(addr)) => Some(
                addr ^ 0x0200_0000_0000_0000,
            ),
            _ => None,
        }
    }
}

} // verus!

//! Addresses and packet formats.

pub mod bytes;
pub mod checksum;
pub mod dhcpv4;
pub mod echo;
pub mod ethernet;
pub mod format_laws;
pub mod hardware;
pub mod ip;
pub mod ip_packet;
pub mod ipv4;
pub mod ipv6;
pub mod ndisc;
pub mod subnet_laws;
pub mod udp;

pub use self::ethernet::{EthernetProtocol, ETHERNET_HEADER_LEN, LINK_HEADER_LEN};
pub use self::hardware::{EthernetAddress, HardwareAddress, Ieee802154Address};
pub use self::ip::{
    IpAddress, IpCidr, IpEndpoint, IpListenAddress, IpListenEndpoint, IpProtocol, IpVersion,
};
pub use self::ip_packet::{IPV4_HEADER_LEN, IPV6_HEADER_LEN};
pub use self::ipv4::{Ipv4Address, Ipv4Cidr};
pub use self::ipv6::{Ipv6Address, Ipv6Cidr, Ipv6MulticastScope};
pub use self::udp::UDP_HEADER_LEN;

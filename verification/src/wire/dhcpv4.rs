//! DHCPv4 messages.

use super::bytes::{
    be16, be32, put_slice, put_u16, put_u32, put_zeros, read_u16, read_u32, u16_at, u32_at, zeros,
};
use super::hardware::EthernetAddress;
use super::ipv4::Ipv4Address;
use vstd::prelude::*;

verus! {

/// The UDP port servers listen on.
pub const DHCP_SERVER_PORT: u16 = 67;

/// The UDP port clients listen on.
pub const DHCP_CLIENT_PORT: u16 = 68;

/// Length of a message up to and including the magic number.
pub const DHCP_HEADER_LEN: usize = 240;

/// The number that tells DHCP from BOOTP.
pub const DHCP_MAGIC_NUMBER: u32 = 0x6382_5363;

/// The operation of a client's message.
pub const DHCP_OP_REQUEST: u8 = 1;

/// The operation of a server's message.
pub const DHCP_OP_REPLY: u8 = 2;

/// The hardware type of Ethernet.
pub const ARP_HARDWARE_ETHERNET: u8 = 1;

pub const OPT_PAD: u8 = 0;

pub const OPT_SUBNET_MASK: u8 = 1;

pub const OPT_ROUTER: u8 = 3;

pub const OPT_DOMAIN_NAME_SERVER: u8 = 6;

pub const OPT_REQUESTED_IP: u8 = 50;

pub const OPT_IP_LEASE_TIME: u8 = 51;

pub const OPT_DHCP_MESSAGE_TYPE: u8 = 53;

pub const OPT_SERVER_IDENTIFIER: u8 = 54;

pub const OPT_MESSAGE: u8 = 56;

pub const OPT_CLIENT_ID: u8 = 61;

pub const OPT_END: u8 = 255;

/// What a message asks for or answers.
#[derive(Clone, Copy, PartialEq, Eq, Structural, Debug)]
pub enum DhcpMessageType {
    Discover,
    Offer,
    Request,
    Decline,
    Ack,
    Nak,
    Release,
    Inform,
    Unknown(u8),
}

impl DhcpMessageType {
    /// The type with the given number.
    pub open spec fn numbered(number: u8) -> DhcpMessageType {
        if number == 1 {
            DhcpMessageType::Discover
        } else if number == 2 {
            DhcpMessageType::Offer
        } else if number == 3 {
            DhcpMessageType::Request
        } else if number == 4 {
            DhcpMessageType::Decline
        } else if number == 5 {
            DhcpMessageType::Ack
        } else if number == 6 {
            DhcpMessageType::Nak
        } else if number == 7 {
            DhcpMessageType::Release
        } else if number == 8 {
            DhcpMessageType::Inform
        } else {
            DhcpMessageType::Unknown(number)
        }
    }

    /// The number of the type.
    pub open spec fn number(self) -> u8 {
        match self {
            DhcpMessageType::Discover => 1,
            DhcpMessageType::Offer => 2,
            DhcpMessageType::Request => 3,
            DhcpMessageType::Decline => 4,
            DhcpMessageType::Ack => 5,
            DhcpMessageType::Nak => 6,
            DhcpMessageType::Release => 7,
            DhcpMessageType::Inform => 8,
            DhcpMessageType::Unknown(number) => number,
        }
    }

    /// The operation of a message of this type: servers offer, acknowledge and
    /// refuse, everything else comes from clients.
    pub open spec fn op(self) -> u8 {
        match self {
            DhcpMessageType::Offer | DhcpMessageType::Ack | DhcpMessageType::Nak => DHCP_OP_REPLY,
            _ => DHCP_OP_REQUEST,
        }
    }

    /// The type with the given number.
    pub fn from_number(number: u8) -> (message_type: DhcpMessageType)
        ensures
            message_type == Self::numbered(number),
    {
        match number {
            1 => DhcpMessageType::Discover,
            2 => DhcpMessageType::Offer,
            3 => DhcpMessageType::Request,
            4 => DhcpMessageType::Decline,
            5 => DhcpMessageType::Ack,
            6 => DhcpMessageType::Nak,
            7 => DhcpMessageType::Release,
            8 => DhcpMessageType::Inform,
            _ => DhcpMessageType::Unknown(number),
        }
    }

    /// The number of the type.
    pub fn to_number(self) -> (number: u8)
        ensures
            number == self.number(),
    {
        match self {
            DhcpMessageType::Discover => 1,
            DhcpMessageType::Offer => 2,
            DhcpMessageType::Request => 3,
            DhcpMessageType::Decline => 4,
            DhcpMessageType::Ack => 5,
            DhcpMessageType::Nak => 6,
            DhcpMessageType::Release => 7,
            DhcpMessageType::Inform => 8,
            DhcpMessageType::Unknown(number) => number,
        }
    }

    /// The operation of a message of this type.
    pub fn opcode(self) -> (op: u8)
        ensures
            op == self.op(),
    {
        match self {
            DhcpMessageType::Offer | DhcpMessageType::Ack | DhcpMessageType::Nak => DHCP_OP_REPLY,
            _ => DHCP_OP_REQUEST,
        }
    }
}

/// The flags of a message.
#[derive(Clone, Copy, PartialEq, Eq, Structural, Debug)]
pub struct DhcpFlags {
    pub bits: u16,
}

/// The flag of a client that has to be answered by broadcast.
pub const DHCP_FLAG_BROADCAST: u16 = 0x8000;

impl DhcpFlags {
    /// No flags.
    pub fn empty() -> (flags: DhcpFlags)
        ensures
            flags.bits == 0,
    {
        DhcpFlags { bits: 0 }
    }

    /// The flags among the given bits that have a meaning.
    pub open spec fn known(bits: int) -> DhcpFlags {
        DhcpFlags { bits: if bits >= DHCP_FLAG_BROADCAST { DHCP_FLAG_BROADCAST } else { 0 } }
    }

    /// Whether the client has to be answered by broadcast.
    pub open spec fn asks_broadcast(self) -> bool {
        self.bits >= DHCP_FLAG_BROADCAST
    }

    /// Whether the client has to be answered by broadcast.
    pub fn broadcast(&self) -> (r: bool)
        ensures
            r == self.asks_broadcast(),
    {
        self.bits >= DHCP_FLAG_BROADCAST
    }
}

/// An option of a message.
#[derive(Clone, Copy, Debug)]
pub struct DhcpOption<'a> {
    pub kind: u8,
    pub data: &'a [u8],
}

/// The bytes of an option: its kind, the length of its data, and the data.
pub open spec fn option_bytes(kind: u8, data: Seq<u8>) -> Seq<u8> {
    seq![kind, data.len() as u8] + data
}

/// Append an option.
pub fn put_option(bytes: &mut Vec<u8>, kind: u8, data: &[u8])
    requires
        data@.len() <= 255,
    ensures
        final(bytes)@ == old(bytes)@ + option_bytes(kind, data@),
{
    bytes.push(kind);
    bytes.push(data.len() as u8);
    put_slice(bytes, data);
    assert(bytes@ =~= old(bytes)@ + option_bytes(kind, data@));
}

/// The data of the first option of the given kind. Options end at the end marker,
/// or where what is left is too short for the next one.
pub open spec fn option_in(options: Seq<u8>, kind: u8) -> Option<Seq<u8>>
    decreases options.len(),
{
    if options.len() == 0 || options[0] == OPT_END {
        None
    } else if options[0] == OPT_PAD {
        option_in(options.skip(1), kind)
    } else if options.len() < 2 || options.len() < 2 + options[1] {
        None
    } else if options[0] == kind {
        Some(options.subrange(2, 2 + options[1]))
    } else {
        option_in(options.skip(2 + options[1]), kind)
    }
}

/// The message is too short.
#[derive(Clone, Copy, PartialEq, Eq, Structural, Debug)]
pub struct DhcpMalformed;

/// A message, long enough for its header.
pub struct DhcpPacket<'a> {
    pub bytes: &'a [u8],
}

/// What the server reads of a client's message.
pub struct DhcpRequestView {
    pub xid: int,
    pub flags: DhcpFlags,
    pub ciaddr: Ipv4Address,
    pub chaddr: EthernetAddress,
    pub client_id: Option<Seq<u8>>,
    pub requested_ip: Option<Seq<u8>>,
    pub server_id: Option<Seq<u8>>,
    pub lease_time: Option<Seq<u8>>,
}

impl<'a> DhcpPacket<'a> {
    /// The message is long enough for its header.
    pub open spec fn wf(self) -> bool {
        self.bytes@.len() >= DHCP_HEADER_LEN
    }

    /// The data of the first option of the given kind.
    pub open spec fn option_data(self, kind: u8) -> Option<Seq<u8>> {
        option_in(self.bytes@.skip(DHCP_HEADER_LEN as int), kind)
    }

    /// The address in the four bytes at `at`.
    pub open spec fn addr_at(self, at: int) -> Ipv4Address {
        Ipv4Address { bits: u32_at(self.bytes@, at) as u32 }
    }

    /// The type of the message: the type option, if it holds one byte.
    pub open spec fn of_type(self) -> Option<DhcpMessageType> {
        match self.option_data(OPT_DHCP_MESSAGE_TYPE) {
            Some(data) => if data.len() == 1 {
                Some(DhcpMessageType::numbered(data[0]))
            } else {
                None
            },
            None => None,
        }
    }

    /// Whether a server takes this for a client's message, sent straight to it:
    /// a DHCP request with an Ethernet address, of a type, and not relayed.
    pub open spec fn is_client_message(self) -> bool {
        &&& u32_at(self.bytes@, 236) == DHCP_MAGIC_NUMBER
        &&& self.bytes@[1] == ARP_HARDWARE_ETHERNET
        &&& self.bytes@[2] == 6
        &&& self.bytes@[0] == DHCP_OP_REQUEST
        &&& self.of_type() is Some
        &&& self.addr_at(24) == Ipv4Address::any()
    }

    /// What the server reads of the message.
    pub open spec fn view(self) -> DhcpRequestView {
        DhcpRequestView {
            xid: u32_at(self.bytes@, 4),
            flags: DhcpFlags::known(u16_at(self.bytes@, 10)),
            ciaddr: self.addr_at(12),
            chaddr: EthernetAddress::at(self.bytes@, 28),
            client_id: self.option_data(OPT_CLIENT_ID),
            requested_ip: self.option_data(OPT_REQUESTED_IP),
            server_id: self.option_data(OPT_SERVER_IDENTIFIER),
            lease_time: self.option_data(OPT_IP_LEASE_TIME),
        }
    }

    /// Take `bytes` for a message, if they are long enough.
    pub fn new_checked(bytes: &'a [u8]) -> (packet: Result<DhcpPacket<'a>, DhcpMalformed>)
        ensures
            packet is Ok <==> bytes@.len() >= DHCP_HEADER_LEN,
            packet matches Ok(packet) ==> packet.bytes == bytes,
    {
        if bytes.len() < DHCP_HEADER_LEN {
            Err(DhcpMalformed)
        } else {
            Ok(DhcpPacket { bytes })
        }
    }

    /// The operation.
    pub fn opcode(&self) -> (op: u8)
        requires
            self.wf(),
        ensures
            op == self.bytes@[0],
    {
        self.bytes[0]
    }

    /// The type of the client's hardware address.
    pub fn hardware_type(&self) -> (hardware: u8)
        requires
            self.wf(),
        ensures
            hardware == self.bytes@[1],
    {
        self.bytes[1]
    }

    /// The length of the client's hardware address.
    pub fn hardware_len(&self) -> (len: u8)
        requires
            self.wf(),
        ensures
            len == self.bytes@[2],
    {
        self.bytes[2]
    }

    /// The number that ties a reply to its request.
    pub fn transaction_id(&self) -> (xid: u32)
        requires
            self.wf(),
        ensures
            xid == self@.xid,
    {
        read_u32(self.bytes, 4)
    }

    /// The flags.
    pub fn flags(&self) -> (flags: DhcpFlags)
        requires
            self.wf(),
        ensures
            flags == self@.flags,
    {
        let bits: u16 = read_u16(self.bytes, 10);
        if bits >= DHCP_FLAG_BROADCAST {
            DhcpFlags { bits: DHCP_FLAG_BROADCAST }
        } else {
            DhcpFlags { bits: 0 }
        }
    }

    /// The address the client says it has.
    pub fn client_ip(&self) -> (addr: Ipv4Address)
        requires
            self.wf(),
        ensures
            addr == self@.ciaddr,
    {
        Ipv4Address { bits: read_u32(self.bytes, 12) }
    }

    /// The address the server gives the client.
    pub fn your_ip(&self) -> (addr: Ipv4Address)
        requires
            self.wf(),
        ensures
            addr == self.addr_at(16),
    {
        Ipv4Address { bits: read_u32(self.bytes, 16) }
    }

    /// The relay agent the message went through.
    pub fn relay_agent_ip(&self) -> (addr: Ipv4Address)
        requires
            self.wf(),
        ensures
            addr == self.addr_at(24),
    {
        Ipv4Address { bits: read_u32(self.bytes, 24) }
    }

    /// The client's hardware address.
    pub fn client_hardware_address(&self) -> (addr: EthernetAddress)
        requires
            self.wf(),
        ensures
            addr == self@.chaddr,
    {
        EthernetAddress::read(self.bytes, 28)
    }

    /// The number that tells DHCP from BOOTP.
    pub fn magic_number(&self) -> (magic: u32)
        requires
            self.wf(),
        ensures
            magic == u32_at(self.bytes@, 236),
    {
        read_u32(self.bytes, 236)
    }

    /// The data of the first option of the given kind.
    pub fn option(&self, kind: u8) -> (data: Option<&'a [u8]>)
        requires
            self.wf(),
        ensures
            data is Some <==> self.option_data(kind) is Some,
            data matches Some(data) ==> data@ == self.option_data(kind)->0,
    {
        let bytes = self.bytes;
        let mut at: usize = DHCP_HEADER_LEN;
        loop
            invariant
                bytes == self.bytes,
                at <= bytes@.len(),
                option_in(bytes@.skip(at as int), kind) == self.option_data(kind),
            decreases bytes@.len() - at,
        {
            let ghost rest = bytes@.skip(at as int);
            if at >= bytes.len() || bytes[at] == OPT_END {
                return None;
            }
            if bytes[at] == OPT_PAD {
                assert(rest.skip(1) =~= bytes@.skip(at + 1));
                at += 1;
                continue ;
            }
            let left: usize = bytes.len() - at;
            if left < 2 || left < 2 + bytes[at + 1] as usize {
                return None;
            }
            let len: usize = bytes[at + 1] as usize;
            if bytes[at] == kind {
                let data = vstd::slice::slice_subrange(bytes, at + 2, at + 2 + len);
                assert(data@ =~= rest.subrange(2, 2 + rest[1]));
                return Some(data);
            }
            assert(rest.skip(2 + len) =~= bytes@.skip(at + 2 + len));
            at += 2 + len;
        }
    }

    /// The type of the message.
    pub fn message_type(&self) -> (message_type: Result<DhcpMessageType, DhcpMalformed>)
        requires
            self.wf(),
        ensures
            message_type is Ok <==> self.of_type() is Some,
            message_type matches Ok(t) ==> t == self.of_type()->0,
    {
        match self.option(OPT_DHCP_MESSAGE_TYPE) {
            Some(data) => if data.len() == 1 {
                Ok(DhcpMessageType::from_number(data[0]))
            } else {
                Err(DhcpMalformed)
            },
            None => Err(DhcpMalformed),
        }
    }
}

/// The header of a message from a server to an Ethernet client. The server and
/// relay addresses, the hop count and the elapsed time are zero, and so are the
/// server and boot file names.
pub open spec fn reply_header(
    message_type: DhcpMessageType,
    xid: int,
    flags: DhcpFlags,
    ciaddr: Ipv4Address,
    yiaddr: Ipv4Address,
    chaddr: EthernetAddress,
) -> Seq<u8> {
    seq![message_type.op(), ARP_HARDWARE_ETHERNET, 6u8, 0u8] + be32(xid) + zeros(2) + be16(
        flags.bits as int,
    ) + ciaddr.octets() + yiaddr.octets() + zeros(8) + chaddr.octets() + zeros(202) + be32(
        DHCP_MAGIC_NUMBER as int,
    )
}

/// Build the header of a message to a client.
pub fn build_reply_header(
    message_type: DhcpMessageType,
    xid: u32,
    flags: DhcpFlags,
    ciaddr: Ipv4Address,
    yiaddr: Ipv4Address,
    chaddr: EthernetAddress,
) -> (header: Vec<u8>)
    ensures
        header@ == reply_header(message_type, xid as int, flags, ciaddr, yiaddr, chaddr),
        header@.len() == DHCP_HEADER_LEN,
{
    let mut header: Vec<u8> = Vec::new();
    header.push(message_type.opcode());
    header.push(ARP_HARDWARE_ETHERNET);
    header.push(6);
    header.push(0);
    put_u32(&mut header, xid);
    put_zeros(&mut header, 2);
    put_u16(&mut header, flags.bits);
    put_u32(&mut header, ciaddr.bits);
    put_u32(&mut header, yiaddr.bits);
    put_zeros(&mut header, 8);
    chaddr.put(&mut header);
    put_zeros(&mut header, 202);
    put_u32(&mut header, DHCP_MAGIC_NUMBER);
    assert(header@ =~= reply_header(message_type, xid as int, flags, ciaddr, yiaddr, chaddr));
    header
}

} // verus!

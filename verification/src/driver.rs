//! Packet buffers and the interface of network drivers.

use crate::config::{PACKET_BUF_COUNT, PACKET_BUF_SIZE};
use crate::time::Instant;
use crate::wire::bytes::{put_slice, zeros};
use crate::wire::hardware::HardwareAddress;
use std::rc::Rc;
use vstd::prelude::*;

verus! {

/// The medium a driver reports.
#[derive(Clone, Copy, PartialEq, Eq, Structural, Debug)]
pub enum Medium {
    Ethernet,
    Ip,
    Ieee802154,
}

/// Whether a device checks a checksum it receives, and fills in one it sends.
#[derive(Clone, Copy, PartialEq, Eq, Structural, Debug)]
pub struct ChecksumOffload {
    pub rx: bool,
    pub tx: bool,
}

impl ChecksumOffload {
    /// The device does neither.
    pub fn none() -> (offload: ChecksumOffload)
        ensures
            offload == (ChecksumOffload { rx: false, tx: false }),
    {
        ChecksumOffload { rx: false, tx: false }
    }
}

/// Which checksums a device computes and verifies itself.
#[derive(Clone, Copy, PartialEq, Eq, Structural, Debug)]
pub struct ChecksumCapabilities {
    pub ipv4: ChecksumOffload,
    pub udp: ChecksumOffload,
    pub tcp: ChecksumOffload,
    pub icmpv4: ChecksumOffload,
    pub icmpv6: ChecksumOffload,
}

impl ChecksumCapabilities {
    /// The device computes and verifies none.
    pub fn none() -> (caps: ChecksumCapabilities)
        ensures
            !caps.ipv4.tx && !caps.udp.tx && !caps.tcp.tx && !caps.icmpv4.tx && !caps.icmpv6.tx,
            !caps.ipv4.rx && !caps.udp.rx && !caps.tcp.rx && !caps.icmpv4.rx && !caps.icmpv6.rx,
    {
        ChecksumCapabilities {
            ipv4: ChecksumOffload::none(),
            udp: ChecksumOffload::none(),
            tcp: ChecksumOffload::none(),
            icmpv4: ChecksumOffload::none(),
            icmpv6: ChecksumOffload::none(),
        }
    }
}

/// What a device can do.
#[derive(Clone, Copy, PartialEq, Eq, Structural, Debug)]
pub struct Capabilities {
    pub medium: Medium,
    /// The longest frame the device takes, link-layer header included.
    pub max_transmission_unit: usize,
    /// The longest IP packet an IEEE 802.15.4 device takes, once its header is
    /// compressed and it is fragmented.
    pub lowpan_ip_mtu: usize,
    pub checksum: ChecksumCapabilities,
}

/// Whether the device has a link.
#[derive(Clone, Copy, PartialEq, Eq, Structural, Debug)]
pub enum LinkState {
    Down,
    Up,
}

/// What goes along with a packet.
#[derive(Clone, Copy, PartialEq, Eq, Structural, Debug)]
pub struct PacketMeta {
    /// A number the application or the driver gave the packet.
    pub id: u32,
    /// When the packet arrived.
    pub timestamp: Option<Instant>,
    /// Whether the device is asked for the time at which it sends the packet.
    pub request_timestamp: bool,
}

impl PacketMeta {
    /// Nothing in particular.
    pub open spec fn plain() -> PacketMeta {
        PacketMeta { id: 0, timestamp: None, request_timestamp: false }
    }
}

impl Default for PacketMeta {
    fn default() -> (meta: PacketMeta)
        ensures
            meta == Self::plain(),
    {
        PacketMeta { id: 0, timestamp: None, request_timestamp: false }
    }
}

/// When a packet was sent.
#[derive(Clone, Copy, PartialEq, Eq, Structural, Debug)]
pub struct TxTimestamp {
    pub id: u32,
    pub timestamp: Instant,
}

/// A packet: its bytes and what goes along with them.
#[verifier::ext_equal]
pub struct Packet {
    pub bytes: Seq<u8>,
    pub meta: PacketMeta,
}

/// How many owners a reference-counted value has.
///
/// Calls `Rc::strong_count`. The count changes as owners come and go, so nothing
/// is said of it here.
#[verifier::external_body]
fn owner_count(token: &Rc<()>) -> (count: usize) {
    Rc::strong_count(token)
}

/// The pool that packet buffers come from: at most [`PACKET_BUF_COUNT`] of them
/// are in use at any time.
#[derive(Debug)]
pub struct PacketPool {
    token: Rc<()>,
}

impl PacketPool {
    /// A pool with every buffer free.
    pub fn new() -> PacketPool {
        PacketPool { token: Rc::new(()) }
    }
}

/// A buffer with a packet in it, and room in front of the packet for headers.
/// Dropping it gives it back to its pool.
#[derive(Debug)]
pub struct PacketBuf {
    headroom: usize,
    data: Vec<u8>,
    meta: PacketMeta,
    token: Rc<()>,
}

impl View for PacketBuf {
    type V = Packet;

    /// The packet in the buffer.
    closed spec fn view(&self) -> Packet {
        Packet { bytes: self.data@, meta: self.meta }
    }
}

impl PacketBuf {
    /// How much room there is in front of the packet.
    pub closed spec fn room(self) -> nat {
        self.headroom as nat
    }

    /// The headroom and the packet fit in the buffer.
    pub open spec fn wf(self) -> bool {
        self.room() + self@.bytes.len() <= PACKET_BUF_SIZE
    }

    /// Whether this is a buffer fresh from the pool.
    pub open spec fn fresh(self) -> bool {
        self.room() == 0 && self@ == (Packet { bytes: Seq::empty(), meta: PacketMeta::plain() })
    }

    /// Take a buffer from the pool. `None` if all of them are in use, which
    /// depends on the packets in flight: [`try_new_among`](Self::try_new_among) says
    /// when.
    pub fn try_new(pool: &PacketPool) -> (buf: Option<PacketBuf>)
        ensures
            buf matches Some(buf) ==> buf.wf() && buf.fresh(),
    {
        Self::try_new_among(pool, owner_count(&pool.token))
    }

    /// Take a buffer from a pool that `owners` hold on to: the pool itself, and each
    /// buffer that is in use. `None` if all the buffers are in use.
    pub fn try_new_among(pool: &PacketPool, owners: usize) -> (buf: Option<PacketBuf>)
        ensures
            buf is Some <==> owners <= PACKET_BUF_COUNT,
            buf matches Some(buf) ==> buf.wf() && buf.fresh(),
    {
        if owners > PACKET_BUF_COUNT {
            return None;
        }
        let buf = PacketBuf {
            headroom: 0,
            data: Vec::new(),
            meta: PacketMeta::default(),
            token: pool.token.clone(),
        };
        assert(buf@.bytes =~= Seq::<u8>::empty());
        Some(buf)
    }

    /// How many bytes fit in a buffer.
    pub fn capacity(&self) -> (capacity: usize)
        ensures
            capacity == PACKET_BUF_SIZE,
    {
        PACKET_BUF_SIZE
    }

    /// The length of the packet.
    pub fn len(&self) -> (len: usize)
        ensures
            len == self@.bytes.len(),
    {
        self.data.len()
    }

    /// The bytes of the packet.
    pub fn as_slice(&self) -> (bytes: &[u8])
        ensures
            bytes@ == self@.bytes,
    {
        self.data.as_slice()
    }

    /// The bytes of the packet, to be changed in place.
    pub fn as_mut_slice(&mut self) -> (bytes: &mut [u8])
        ensures
            bytes@ == old(self)@.bytes,
            final(self)@ == (Packet { bytes: final(bytes)@, meta: old(self)@.meta }),
            final(self).room() == old(self).room(),
    {
        self.data.as_mut_slice()
    }

    /// What goes along with the packet.
    pub fn meta(&self) -> (meta: PacketMeta)
        ensures
            meta == self@.meta,
    {
        self.meta
    }

    /// Set what goes along with the packet.
    pub fn set_meta(&mut self, meta: PacketMeta)
        ensures
            final(self)@ == (Packet { meta, ..old(self)@ }),
            final(self).room() == old(self).room(),
    {
        self.meta = meta;
    }

    /// Set room aside in front of an empty packet.
    pub fn reserve(&mut self, headroom: usize)
        requires
            old(self)@.bytes.len() == 0,
            headroom <= PACKET_BUF_SIZE,
        ensures
            final(self).room() == headroom,
            final(self)@ == old(self)@,
            final(self).wf(),
    {
        self.headroom = headroom;
    }

    /// Make the packet `len` bytes long, cutting it off or filling it up with
    /// zeros at the end.
    pub fn set_len(&mut self, len: usize)
        requires
            old(self).room() + len <= PACKET_BUF_SIZE,
        ensures
            final(self).room() == old(self).room(),
            final(self).wf(),
            final(self)@.meta == old(self)@.meta,
            len <= old(self)@.bytes.len() ==> final(self)@.bytes == old(self)@.bytes.take(
                len as int,
            ),
            len > old(self)@.bytes.len() ==> final(self)@.bytes == old(self)@.bytes + zeros(
                len - old(self)@.bytes.len(),
            ),
    {
        if len <= self.data.len() {
            self.data.truncate(len);
            assert(self.data@ =~= old(self).data@.take(len as int));
        } else {
            let more: usize = len - self.data.len();
            crate::wire::bytes::put_zeros(&mut self.data, more);
        }
    }

    /// Append bytes to the packet.
    pub fn append(&mut self, bytes: &[u8])
        requires
            old(self).room() + old(self)@.bytes.len() + bytes@.len() <= PACKET_BUF_SIZE,
        ensures
            final(self).room() == old(self).room(),
            final(self).wf(),
            final(self)@ == (Packet { bytes: old(self)@.bytes + bytes@, ..old(self)@ }),
    {
        put_slice(&mut self.data, bytes);
    }

    /// Put a header in front of the packet, into the headroom.
    pub fn push_front(&mut self, header: &[u8])
        requires
            old(self).wf(),
            header@.len() <= old(self).room(),
        ensures
            final(self).room() == old(self).room() - header@.len(),
            final(self).wf(),
            final(self)@ == (Packet { bytes: header@ + old(self)@.bytes, ..old(self)@ }),
    {
        let mut data: Vec<u8> = Vec::new();
        put_slice(&mut data, header);
        put_slice(&mut data, self.data.as_slice());
        assert(data@ =~= header@ + old(self)@.bytes);
        self.data = data;
        self.headroom = self.headroom - header.len();
    }
}

/// A call the stack made to a driver, with what went in or came back.
pub enum DriverCall {
    LinkState(LinkState),
    CanTransmit(bool),
    Transmit(Packet),
    TxTimestamp(Option<TxTimestamp>),
}

/// The record of the calls that were made to a driver.
///
/// It goes along with every call, and there is no other way to add to it: a call is on
/// record only if it was made.
pub struct CallLog {
    calls: Ghost<Seq<DriverCall>>,
}

impl View for CallLog {
    type V = Seq<DriverCall>;

    /// The calls, the latest last.
    closed spec fn view(&self) -> Seq<DriverCall> {
        self.calls@
    }
}

impl CallLog {
    /// No calls were made yet.
    pub fn new() -> (log: CallLog)
        ensures
            log@ == Seq::<DriverCall>::empty(),
    {
        CallLog { calls: Ghost(Seq::empty()) }
    }
}

/// A network driver.
///
/// The calls that make the device do something take the record of the calls along. It
/// holds no data, so a driver has nothing to do with it.
pub trait Driver: Sized {
    /// What the device can do.
    fn capabilities(&self) -> Capabilities;

    /// The link-layer address of the device.
    fn hardware_address(&self) -> HardwareAddress;

    /// Whether the device has a link.
    fn link_state(&mut self, log: &mut CallLog) -> (state: LinkState)
        ensures
            final(log)@ == old(log)@.push(DriverCall::LinkState(state)),
    ;

    /// Whether the device can take one more frame right now.
    fn can_transmit(&mut self, log: &mut CallLog) -> (room: bool)
        ensures
            final(log)@ == old(log)@.push(DriverCall::CanTransmit(room)),
    ;

    /// Send a frame.
    fn transmit(&mut self, packet: PacketBuf, log: &mut CallLog)
        ensures
            final(log)@ == old(log)@.push(DriverCall::Transmit(packet@)),
    ;

    /// The time at which some packet was sent that asked for it.
    fn poll_tx_timestamp(&mut self, log: &mut CallLog) -> (timestamp: Option<TxTimestamp>)
        ensures
            final(log)@ == old(log)@.push(DriverCall::TxTimestamp(timestamp)),
    ;
}

} // verus!

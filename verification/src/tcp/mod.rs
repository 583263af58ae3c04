//! TCP.

pub mod listener;
pub mod listener_laws;

use crate::iface::IfaceBinding;
use crate::wire::IpEndpoint;
use vstd::prelude::*;

verus! {

/// The largest segment sent to a host that does not say what it takes.
pub const DEFAULT_MSS: usize = 536;

/// The smallest segment size a remote can ask for.
pub const MIN_REMOTE_MSS: usize = 48;

/// A sequence number. It wraps around.
#[derive(Clone, Copy, PartialEq, Eq, Structural, Debug)]
pub struct TcpSeqNumber(pub u32);

impl TcpSeqNumber {
    /// The sequence number after this one.
    pub open spec fn succ(self) -> TcpSeqNumber {
        TcpSeqNumber(((self.0 + 1) % 0x1_0000_0000) as u32)
    }

    /// The sequence number after this one.
    pub fn next(self) -> (next: TcpSeqNumber)
        ensures
            next == self.succ(),
    {
        TcpSeqNumber(
            if self.0 == u32::MAX {
                0
            } else {
                self.0 + 1
            },
        )
    }
}

/// The control flag of a segment.
#[derive(Clone, Copy, PartialEq, Eq, Structural, Debug)]
pub enum TcpControl {
    Plain,
    Psh,
    Syn,
    Fin,
    Rst,
}

/// The timestamp option of a segment.
#[derive(Clone, Copy, PartialEq, Eq, Structural, Debug)]
pub struct TcpTimestampRepr {
    pub tsval: u32,
    pub tsecr: u32,
}

/// The header of a segment.
#[derive(Clone, Copy, PartialEq, Eq, Structural, Debug)]
pub struct TcpRepr {
    pub src_port: u16,
    pub dst_port: u16,
    pub control: TcpControl,
    pub seq_number: TcpSeqNumber,
    pub ack_number: Option<TcpSeqNumber>,
    pub window_len: u16,
    pub window_scale: Option<u8>,
    pub max_seg_size: Option<u16>,
    pub sack_permitted: bool,
    pub timestamp: Option<TcpTimestampRepr>,
}

/// The two ends of a connection.
#[derive(Clone, Copy, PartialEq, Eq, Structural, Debug)]
pub struct Tuple {
    pub local: IpEndpoint,
    pub remote: IpEndpoint,
}

/// Error returned by [`TcpListener::listen`](listener::TcpListener::listen).
#[derive(Clone, Copy, PartialEq, Eq, Structural, Debug)]
pub enum ListenError {
    /// The listener is already listening.
    InvalidState,
    /// The port is zero.
    Unaddressable,
    /// Another listener is bound to an identical endpoint.
    InUse,
}

/// The state of a connection (RFC 793).
#[derive(Clone, Copy, PartialEq, Eq, Structural, Debug)]
pub enum State {
    Closed,
    Listen,
    SynSent,
    SynReceived,
    Established,
    FinWait1,
    FinWait2,
    CloseWait,
    Closing,
    LastAck,
    TimeWait,
}

/// What a socket keeps of the handshake of its connection.
#[derive(Clone, Copy, PartialEq, Eq, Structural, Debug)]
pub struct TcpSocketState {
    pub state: State,
    pub tuple: Option<Tuple>,
    pub binding: IfaceBinding,
    pub local_seq_no: TcpSeqNumber,
    pub remote_seq_no: TcpSeqNumber,
    pub remote_last_seq: TcpSeqNumber,
    pub remote_has_sack: bool,
    pub remote_win_scale: Option<u8>,
    pub remote_win_shift: u8,
    pub remote_win_len: usize,
    pub remote_mss: usize,
    /// The segment size the congestion controller reckons with.
    pub congestion_mss: usize,
    pub timestamps: bool,
    pub last_remote_tsval: u32,
    pub tsval_offset: u32,
}

} // verus!

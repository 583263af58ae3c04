//! TCP listeners.

use super::{
    ListenError, State, TcpControl, TcpRepr, TcpSeqNumber, TcpSocketState, TcpTimestampRepr, Tuple,
    DEFAULT_MSS, MIN_REMOTE_MSS,
};
use crate::config::{TCP_LISTENER_BACKLOG, TCP_LISTENER_COUNT};
use crate::iface::{IfaceBinding, IfaceHandle};
use crate::lists::{
    lemma_filter_all, lemma_filter_drops, lemma_filter_from, lemma_filter_keeps,
    lemma_filter_pairwise, lemma_position, lemma_position_is, lemma_position_none, pairwise,
    position,
};
use crate::stack::Stack;
use crate::storage::slab::{
    first_slot, is_next_slot, lemma_first_slot, lemma_first_slot_known, lemma_no_first_slot,
    no_next_slot,
};
use crate::storage::{BoundedDeque, Slab};
use crate::waker::{WakerRegistration, WakerView};
use crate::wire::{IpAddress, IpEndpoint, IpListenAddress, IpListenEndpoint};
use core::task::Waker;
use vstd::prelude::*;

verus! {

/// A handle to a TCP listener added to a [`Stack`](crate::stack::Stack).
#[derive(Clone, Copy, PartialEq, Eq, Structural, Debug)]
pub struct TcpListenerHandle {
    pub index: usize,
}

impl TcpListenerHandle {
    /// The handle of the listener at `index`.
    pub fn new(index: usize) -> (handle: TcpListenerHandle)
        ensures
            handle.index == index,
    {
        TcpListenerHandle { index }
    }

    /// Where the listener is.
    pub fn index(self) -> (index: usize)
        ensures
            index == self.index,
    {
        self.index
    }
}

/// A SYN recorded in a listener's accept queue: the parsed handshake state
/// needed to create the connection socket at accept time.
#[derive(Clone, Copy, PartialEq, Eq, Structural, Debug)]
pub struct PendingSyn {
    pub tuple: Tuple,
    /// The remote's initial sequence number plus one.
    pub remote_seq_no: TcpSeqNumber,
    /// The remote window advertised in the SYN (never scaled).
    pub remote_win_len: usize,
    /// The window scale the remote offered, if any.
    pub remote_win_scale: Option<u8>,
    /// Whether the remote supports selective ACK.
    pub remote_has_sack: bool,
    /// The MSS the remote advertised (clamped), or the default.
    pub remote_mss: usize,
    /// The timestamp option of the SYN, if present.
    pub timestamp: Option<TcpTimestampRepr>,
}

/// The two ends of the connection a segment belongs to.
pub open spec fn tuple_of(src_addr: IpAddress, dst_addr: IpAddress, repr: TcpRepr) -> Tuple {
    Tuple {
        local: IpEndpoint { addr: dst_addr, port: repr.dst_port },
        remote: IpEndpoint { addr: src_addr, port: repr.src_port },
    }
}

/// The segment size a SYN asks for. A zero is treated as if the option were
/// absent, a tiny one is clamped.
pub open spec fn mss_of(max_seg_size: Option<u16>) -> usize {
    match max_seg_size {
        Some(mss) => if mss == 0 {
            DEFAULT_MSS
        } else if mss < MIN_REMOTE_MSS {
            MIN_REMOTE_MSS
        } else {
            mss as usize
        },
        None => DEFAULT_MSS,
    }
}

/// What is recorded of a SYN.
pub open spec fn syn_of(src_addr: IpAddress, dst_addr: IpAddress, repr: TcpRepr) -> PendingSyn {
    PendingSyn {
        tuple: tuple_of(src_addr, dst_addr, repr),
        remote_seq_no: repr.seq_number.succ(),
        remote_win_len: repr.window_len as usize,
        remote_win_scale: repr.window_scale,
        remote_has_sack: repr.sack_permitted,
        remote_mss: mss_of(repr.max_seg_size),
        timestamp: repr.timestamp,
    }
}

/// How specific the match of a listened endpoint with a local address is, if there
/// is one: one address beats one version, which beats any address.
pub open spec fn address_score(local: IpListenEndpoint, addr: IpAddress) -> Option<u8> {
    match local.addr {
        IpListenAddress::Any => Some(0),
        IpListenAddress::Version(version) => if version == addr.of_version() {
            Some(1)
        } else {
            None
        },
        IpListenAddress::Exact(exact) => if exact == addr {
            Some(2)
        } else {
            None
        },
    }
}

/// How specific the match of a listened endpoint with a local address is.
pub fn addr_score(local: &IpListenEndpoint, addr: &IpAddress) -> (score: Option<u8>)
    ensures
        score == address_score(*local, *addr),
        score matches Some(score) ==> score <= 2,
{
    match local.addr {
        IpListenAddress::Any => Some(0),
        IpListenAddress::Version(version) => if version == addr.version() {
            Some(1)
        } else {
            None
        },
        IpListenAddress::Exact(exact) => if exact == *addr {
            Some(2)
        } else {
            None
        },
    }
}

/// TCP listener state, stored inside the stack.
pub struct TcpListenerState {
    /// The listened endpoint. A zero port means the listener is closed. The
    /// address scopes the listen, from any address of any version down to one
    /// exact address.
    pub local: IpListenEndpoint,
    /// The interface the listener is bound to.
    pub binding: IfaceBinding,
    /// The accept queue: SYNs waiting to be accepted, deduplicated by 4-tuple.
    pub queue: BoundedDeque<PendingSyn, TCP_LISTENER_BACKLOG>,
    pub accept_waker: WakerRegistration,
}

/// The state of a listener.
#[verifier::ext_equal]
pub struct ListenerView {
    pub local: IpListenEndpoint,
    pub binding: IfaceBinding,
    pub queue: Seq<PendingSyn>,
    pub accept_waker: WakerView,
}

impl View for TcpListenerState {
    type V = ListenerView;

    open spec fn view(&self) -> ListenerView {
        ListenerView {
            local: self.local,
            binding: self.binding,
            queue: self.queue@,
            accept_waker: self.accept_waker@,
        }
    }
}

/// Whether a SYN is of the connection `tuple`.
pub open spec fn is_of(tuple: Tuple) -> spec_fn(PendingSyn) -> bool {
    |syn: PendingSyn| syn.tuple == tuple
}

/// Whether two SYNs are of different connections.
pub open spec fn different_connections() -> spec_fn(PendingSyn, PendingSyn) -> bool {
    |a: PendingSyn, b: PendingSyn| a.tuple != b.tuple
}

/// Whether an RST is aimed at a SYN. The only acceptable sequence number for a
/// connection with nothing received past the SYN is exactly RCV.NXT.
pub open spec fn resets(syn: PendingSyn, tuple: Tuple, seq_number: TcpSeqNumber) -> bool {
    syn.tuple == tuple && seq_number == syn.remote_seq_no
}

/// The SYNs an RST leaves.
pub open spec fn survives(tuple: Tuple, seq_number: TcpSeqNumber) -> spec_fn(PendingSyn) -> bool {
    |syn: PendingSyn| !resets(syn, tuple, seq_number)
}

impl ListenerView {
    /// The queue fits, has one entry per connection, and is empty on a listener
    /// that is closed.
    pub open spec fn wf(self) -> bool {
        &&& self.queue.len() <= TCP_LISTENER_BACKLOG
        &&& pairwise(self.queue, different_connections())
        &&& self.local.port == 0 ==> self.queue.len() == 0
    }

    /// A listener that is closed.
    pub open spec fn not_listening() -> ListenerView {
        ListenerView {
            local: IpListenEndpoint::nothing(),
            binding: IfaceBinding::Any,
            queue: Seq::empty(),
            accept_waker: WakerView::unused(),
        }
    }

    /// How specific the match with a segment is, if there is one. A listener bound
    /// to the arrival interface outscores an unbound one.
    pub open spec fn score(self, arrival: IfaceHandle, dst_addr: IpAddress, dst_port: u16) -> Option<
        u8,
    > {
        if self.local.port == 0 || dst_port != self.local.port {
            None
        } else {
            match (self.binding.score(arrival), address_score(self.local, dst_addr)) {
                (Some(binding), Some(addr)) => Some((binding + addr) as u8),
                _ => None,
            }
        }
    }

    /// A SYN was recorded. The newest one of a connection wins. A new one is
    /// dropped if the queue is full.
    pub open spec fn recorded(self, syn: PendingSyn) -> ListenerView {
        match position(self.queue, is_of(syn.tuple)) {
            Some(i) => ListenerView { queue: self.queue.update(i, syn), ..self },
            None => if self.queue.len() < TCP_LISTENER_BACKLOG {
                ListenerView {
                    queue: self.queue.push(syn),
                    accept_waker: self.accept_waker.fired(),
                    ..self
                }
            } else {
                self
            },
        }
    }

    /// Whether an RST is aimed at a queued SYN.
    pub open spec fn is_reset_by(self, tuple: Tuple, seq_number: TcpSeqNumber) -> bool {
        exists|i: int|
            0 <= i < self.queue.len() && resets(#[trigger] self.queue[i], tuple, seq_number)
    }

    /// The SYN an RST is aimed at was removed.
    pub open spec fn reset(self, tuple: Tuple, seq_number: TcpSeqNumber) -> ListenerView {
        ListenerView { queue: self.queue.filter(survives(tuple, seq_number)), ..self }
    }

    /// The listener was closed.
    pub open spec fn closed(self) -> ListenerView {
        ListenerView {
            local: IpListenEndpoint::nothing(),
            queue: Seq::empty(),
            accept_waker: self.accept_waker.fired(),
            ..self
        }
    }
}

/// Recording a SYN keeps the queue in order.
pub proof fn lemma_recorded_wf(listener: ListenerView, syn: PendingSyn)
    requires
        listener.wf(),
        listener.local.port != 0,
    ensures
        listener.recorded(syn).wf(),
{
    lemma_position(listener.queue, is_of(syn.tuple));
    let queue = listener.recorded(syn).queue;
    assert forall|i: int, j: int| 0 <= i < j < queue.len() implies different_connections()(
        #[trigger] queue[i],
        #[trigger] queue[j],
    ) by {
        match position(listener.queue, is_of(syn.tuple)) {
            Some(k) => {
                assert(is_of(syn.tuple)(listener.queue[k]));
                assert(different_connections()(listener.queue[i], listener.queue[j]));
            },
            None => {
                if j < listener.queue.len() {
                    assert(different_connections()(listener.queue[i], listener.queue[j]));
                } else {
                    assert(!is_of(syn.tuple)(listener.queue[i]));
                }
            },
        }
    }
}

/// Removing SYNs keeps the queue in order.
pub proof fn lemma_reset_wf(listener: ListenerView, tuple: Tuple, seq_number: TcpSeqNumber)
    requires
        listener.wf(),
    ensures
        listener.reset(tuple, seq_number).wf(),
{
    lemma_filter_drops(listener.queue, survives(tuple, seq_number));
    lemma_filter_pairwise(listener.queue, survives(tuple, seq_number), different_connections());
}

impl TcpListenerState {
    /// A listener that is closed.
    pub fn new() -> (state: TcpListenerState)
        ensures
            state@ == ListenerView::not_listening(),
            state@.wf(),
    {
        TcpListenerState {
            local: IpListenEndpoint::unspecified(),
            binding: IfaceBinding::Any,
            queue: BoundedDeque::new(),
            accept_waker: WakerRegistration::new(),
        }
    }

    /// Score this listener against a segment to (`dst_addr`, `dst_port`)
    /// arriving on `arrival`.
    ///
    /// `None` if the listener does not match, else how specific the match is: an
    /// exact local-address match outscores a per-version one, which outscores a
    /// wildcard, and a listener bound to the arrival interface outscores an
    /// unbound one.
    pub fn match_score(&self, arrival: IfaceHandle, dst_addr: &IpAddress, dst_port: u16) -> (score:
        Option<u8>)
        ensures
            score == self@.score(arrival, *dst_addr, dst_port),
    {
        if self.local.port == 0 || dst_port != self.local.port {
            return None;
        }
        match (self.binding.match_score(arrival), addr_score(&self.local, dst_addr)) {
            (Some(binding), Some(addr)) => Some(binding + addr),
            _ => None,
        }
    }

    /// Where the SYN of a connection is in the queue.
    fn find_syn(&self, tuple: Tuple) -> (index: Option<usize>)
        ensures
            index is Some <==> position(self@.queue, is_of(tuple)) is Some,
            index matches Some(i) ==> i < self@.queue.len() && position(self@.queue, is_of(tuple))
                == Some(i as int),
    {
        let ghost p = is_of(tuple);
        let mut index: usize = 0;
        while index < self.queue.len()
            invariant
                index <= self@.queue.len(),
                p == is_of(tuple),
                forall|i: int| 0 <= i < index ==> !p(#[trigger] self@.queue[i]),
            decreases self@.queue.len() - index,
        {
            if self.queue.get(index).tuple == tuple {
                proof {
                    lemma_position_is(self@.queue, p, index as int);
                }
                return Some(index);
            }
            index += 1;
        }
        proof {
            lemma_position_none(self@.queue, p);
        }
        None
    }

    /// Record a SYN aimed at this listener in the accept queue.
    ///
    /// The queue is deduplicated by 4-tuple, with the newest SYN winning: a
    /// retransmission (or a client aborting and reconnecting from the same
    /// port) updates the entry in place instead of queueing a duplicate. On a
    /// full queue the SYN is dropped silently, and the client retries. Nothing
    /// is ever transmitted in response. The SYN|ACK is sent by the socket the
    /// attempt is accepted into.
    pub fn record_syn(&mut self, src_addr: &IpAddress, dst_addr: &IpAddress, repr: &TcpRepr)
        requires
            repr.control == TcpControl::Syn,
            repr.ack_number is None,
        ensures
            final(self)@ == old(self)@.recorded(syn_of(*src_addr, *dst_addr, *repr)),
    {
        let tuple = Tuple {
            local: IpEndpoint::new(*dst_addr, repr.dst_port),
            remote: IpEndpoint::new(*src_addr, repr.src_port),
        };
        let syn = PendingSyn {
            tuple,
            remote_seq_no: repr.seq_number.next(),
            // The window field of a SYN is never scaled.
            remote_win_len: repr.window_len as usize,
            remote_win_scale: repr.window_scale,
            remote_has_sack: repr.sack_permitted,
            remote_mss: match repr.max_seg_size {
                // A zero MSS is treated as if the option were absent, a tiny
                // one is clamped.
                Some(mss) => if mss == 0 {
                    DEFAULT_MSS
                } else if (mss as usize) < MIN_REMOTE_MSS {
                    MIN_REMOTE_MSS
                } else {
                    mss as usize
                },
                None => DEFAULT_MSS,
            },
            timestamp: repr.timestamp,
        };
        match self.find_syn(tuple) {
            Some(index) => {
                self.queue.set(index, syn);
            },
            None => {
                if self.queue.push_back(syn).is_err() {
                    return ;
                }
                // There's a connection attempt to accept, notify the waiting task if any.
                self.accept_waker.wake();
            },
        }
    }

    /// Remove the queued SYN an RST is aimed at, if any, returning whether one
    /// was removed. The client gave up before we accepted. The only acceptable
    /// sequence number for a connection with nothing received past the SYN is
    /// exactly RCV.NXT.
    pub fn process_rst(&mut self, src_addr: &IpAddress, dst_addr: &IpAddress, repr: &TcpRepr) -> (
    removed: bool)
        requires
            repr.control == TcpControl::Rst,
        ensures
            final(self)@ == old(self)@.reset(
                tuple_of(*src_addr, *dst_addr, *repr),
                repr.seq_number,
            ),
            removed == old(self)@.is_reset_by(
                tuple_of(*src_addr, *dst_addr, *repr),
                repr.seq_number,
            ),
            !removed ==> final(self)@ == old(self)@,
    {
        let tuple = Tuple {
            local: IpEndpoint::new(*dst_addr, repr.dst_port),
            remote: IpEndpoint::new(*src_addr, repr.src_port),
        };
        let seq_number = repr.seq_number;
        let ghost all = self.queue@;
        let ghost left = survives(tuple, seq_number);
        let before: usize = self.queue.len();
        let keep = |syn: &PendingSyn| -> (r: bool)
            ensures
                r == !resets(*syn, tuple, seq_number),
            { !(syn.tuple == tuple && seq_number == syn.remote_seq_no) };
        self.queue.retain(keep, Ghost(left));
        proof {
            lemma_filter_drops(all, left);
            if self.queue@.len() == all.len() {
                assert forall|i: int| 0 <= i < all.len() implies left(#[trigger] all[i]) by {}
                lemma_filter_all(all, left);
            } else {
                let i = choose|i: int| 0 <= i < all.len() && !left(#[trigger] all[i]);
                assert(resets(all[i], tuple, seq_number));
            }
        }
        self.queue.len() != before
    }
}

/// The state of every listener.
pub open spec fn listener_views(listeners: Map<int, TcpListenerState>) -> Map<int, ListenerView> {
    Map::new(|index: int| listeners.contains_key(index), |index: int| listeners[index]@)
}

/// Whether every listener is in order, and no two that listen are on the same
/// endpoint and interface.
pub open spec fn listeners_wf(listeners: Map<int, ListenerView>) -> bool {
    &&& forall|index: int| #[trigger] listeners.contains_key(index) ==> listeners[index].wf()
    &&& forall|i: int, j: int| #[trigger]
        listeners.contains_key(i) && #[trigger] listeners.contains_key(j) && i != j
            && listeners[i].local.port != 0 ==> !(listeners[i].local == listeners[j].local
            && listeners[i].binding == listeners[j].binding)
}

/// Whether the listener at `index` is the one a segment goes to: of those that
/// match, the first one of the most specific.
pub open spec fn is_best_listener(
    listeners: Map<int, ListenerView>,
    arrival: IfaceHandle,
    dst_addr: IpAddress,
    dst_port: u16,
    index: int,
) -> bool {
    &&& 0 <= index
    &&& listeners.contains_key(index)
    &&& listeners[index].score(arrival, dst_addr, dst_port) matches Some(best) && forall|i: int|
        0 <= i && #[trigger] listeners.contains_key(i) ==> match listeners[i].score(
            arrival,
            dst_addr,
            dst_port,
        ) {
            Some(score) => score <= best && (i < index ==> score < best),
            None => true,
        }
}

/// The listener a segment goes to, if one matches.
pub open spec fn best_listener(
    listeners: Map<int, ListenerView>,
    arrival: IfaceHandle,
    dst_addr: IpAddress,
    dst_port: u16,
) -> Option<int> {
    if exists|index: int| is_best_listener(listeners, arrival, dst_addr, dst_port, index) {
        Some(choose|index: int| is_best_listener(listeners, arrival, dst_addr, dst_port, index))
    } else {
        None
    }
}

/// Only one listener is the one a segment goes to.
pub proof fn lemma_best_listener(
    listeners: Map<int, ListenerView>,
    arrival: IfaceHandle,
    dst_addr: IpAddress,
    dst_port: u16,
    index: int,
)
    requires
        is_best_listener(listeners, arrival, dst_addr, dst_port, index),
    ensures
        best_listener(listeners, arrival, dst_addr, dst_port) == Some(index),
{
    let found = choose|index: int|
        is_best_listener(listeners, arrival, dst_addr, dst_port, index);
    assert(listeners.contains_key(found) && listeners.contains_key(index));
}

/// Whether an RST that arrived on `iface` is aimed at a SYN of the listener.
pub open spec fn is_hit_by(iface: IfaceHandle, tuple: Tuple, seq_number: TcpSeqNumber) -> spec_fn(
    ListenerView,
) -> bool {
    |listener: ListenerView|
        listener.binding.admits(iface) && listener.is_reset_by(tuple, seq_number)
}

/// The listeners after a segment was offered to them, and whether one took it.
pub open spec fn offered(
    listeners: Map<int, ListenerView>,
    iface: IfaceHandle,
    src_addr: IpAddress,
    dst_addr: IpAddress,
    repr: TcpRepr,
) -> (Map<int, ListenerView>, bool) {
    let tuple = tuple_of(src_addr, dst_addr, repr);
    if repr.control == TcpControl::Syn && repr.ack_number is None {
        match best_listener(listeners, iface, dst_addr, repr.dst_port) {
            Some(i) => (
                listeners.insert(i, listeners[i].recorded(syn_of(src_addr, dst_addr, repr))),
                true,
            ),
            None => (listeners, false),
        }
    } else if repr.control == TcpControl::Rst {
        match first_slot(listeners, is_hit_by(iface, tuple, repr.seq_number)) {
            Some(i) => (listeners.insert(i, listeners[i].reset(tuple, repr.seq_number)), true),
            None => (listeners, false),
        }
    } else {
        (listeners, false)
    }
}

/// The listener a segment goes to, if one matches.
fn find_best_listener(
    listeners: &Slab<TcpListenerState, TCP_LISTENER_COUNT>,
    arrival: IfaceHandle,
    dst_addr: &IpAddress,
    dst_port: u16,
) -> (index: Option<usize>)
    ensures
        index is Some <==> best_listener(
            listener_views(listeners@),
            arrival,
            *dst_addr,
            dst_port,
        ) is Some,
        index matches Some(i) ==> listeners@.contains_key(i as int) && best_listener(
            listener_views(listeners@),
            arrival,
            *dst_addr,
            dst_port,
        ) == Some(i as int),
{
    let ghost all = listener_views(listeners@);
    let mut best: Option<(usize, u8)> = None;
    let mut from: usize = 0;
    loop
        invariant
            all == listener_views(listeners@),
            best matches Some((b, score)) ==> {
                &&& b < from
                &&& all.contains_key(b as int)
                &&& all[b as int].score(arrival, *dst_addr, dst_port) == Some(score)
                &&& forall|i: int|
                    0 <= i < from && #[trigger] all.contains_key(i) ==> match all[i].score(
                        arrival,
                        *dst_addr,
                        dst_port,
                    ) {
                        Some(other) => other <= score && (i < b ==> other < score),
                        None => true,
                    }
            },
            best is None ==> forall|i: int|
                0 <= i < from && #[trigger] all.contains_key(i) ==> all[i].score(
                    arrival,
                    *dst_addr,
                    dst_port,
                ) is None,
        decreases usize::MAX - from,
    {
        match listeners.next_occupied(from) {
            Some(index) => {
                assert(all.contains_key(index as int));
                if let Some(score) = listeners.get(index).match_score(
                    arrival,
                    dst_addr,
                    dst_port,
                ) {
                    let better: bool = match best {
                        Some((_, best_score)) => score > best_score,
                        None => true,
                    };
                    if better {
                        best = Some((index, score));
                    }
                }
                from = index + 1;
            },
            None => {
                return match best {
                    Some((index, _)) => {
                        proof {
                            lemma_best_listener(
                                all,
                                arrival,
                                *dst_addr,
                                dst_port,
                                index as int,
                            );
                        }
                        Some(index)
                    },
                    None => None,
                };
            },
        }
    }
}

/// Offer an ingress segment to the stack's listeners, returning whether it was
/// consumed.
///
/// The listeners consume exactly two things, and never reply to either. A SYN
/// to a listened endpoint is recorded on the *most specific* matching listener,
/// where an exact local-address match beats a wildcard one, so a per-address
/// listener takes its address's connections away from an any-address one on the
/// same port. An RST aimed at a recorded SYN removes it. Everything else is
/// left to the caller's RST fallback.
pub fn process_listeners(
    listeners: &mut Slab<TcpListenerState, TCP_LISTENER_COUNT>,
    iface: IfaceHandle,
    src_addr: &IpAddress,
    dst_addr: &IpAddress,
    repr: &TcpRepr,
) -> (consumed: bool)
    ensures
        (listener_views(final(listeners)@), consumed) == offered(
            listener_views(old(listeners)@),
            iface,
            *src_addr,
            *dst_addr,
            *repr,
        ),
        final(listeners)@.dom() =~= old(listeners)@.dom(),
{
    let ghost before = listener_views(listeners@);
    match repr.control {
        TcpControl::Syn => {
            if repr.ack_number.is_some() {
                return false;
            }
            match find_best_listener(listeners, iface, dst_addr, repr.dst_port) {
                Some(index) => {
                    listeners.get_mut(index).record_syn(src_addr, dst_addr, repr);
                    assert(listener_views(listeners@) =~= offered(
                        before,
                        iface,
                        *src_addr,
                        *dst_addr,
                        *repr,
                    ).0);
                    true
                },
                None => false,
            }
        },
        TcpControl::Rst => {
            let ghost tuple = tuple_of(*src_addr, *dst_addr, *repr);
            let ghost p = is_hit_by(iface, tuple, repr.seq_number);
            let mut from: usize = 0;
            loop
                invariant
                    before == listener_views(old(listeners)@),
                    listener_views(listeners@) == before,
                    listeners@.dom() =~= old(listeners)@.dom(),
                    repr.control == TcpControl::Rst,
                    tuple == tuple_of(*src_addr, *dst_addr, *repr),
                    p == is_hit_by(iface, tuple, repr.seq_number),
                    forall|i: int|
                        0 <= i < from && #[trigger] before.contains_key(i) ==> !p(before[i]),
                decreases usize::MAX - from,
            {
                match listeners.next_occupied(from) {
                    Some(index) => {
                        assert(before.contains_key(index as int));
                        assert(before[index as int] == listeners@[index as int]@);
                        let listener = listeners.get_mut(index);
                        if listener.binding.matches(iface) {
                            if listener.process_rst(src_addr, dst_addr, repr) {
                                proof {
                                    lemma_first_slot(before, p, index as int);
                                    assert(listener_views(listeners@) =~= offered(
                                        before,
                                        iface,
                                        *src_addr,
                                        *dst_addr,
                                        *repr,
                                    ).0);
                                }
                                return true;
                            }
                        }
                        assert(listener_views(listeners@) =~= before);
                        from = index + 1;
                    },
                    None => {
                        proof {
                            lemma_no_first_slot(before, p);
                        }
                        return false;
                    },
                }
            }
        },
        _ => false,
    }
}

/// A connection attempt accepted from a [`TcpListener`], returned by
/// [`TcpListener::accept`].
///
/// Dropping the token forgets the attempt. The client retransmits its SYN,
/// which queues the attempt on the listener again.
#[derive(Debug)]
pub struct AcceptToken {
    pub syn: PendingSyn,
    pub binding: IfaceBinding,
}

impl AcceptToken {
    /// The local endpoint the client is connecting to.
    pub fn local_endpoint(&self) -> (endpoint: IpEndpoint)
        ensures
            endpoint == self.syn.tuple.local,
    {
        self.syn.tuple.local
    }

    /// The remote endpoint the connection attempt comes from.
    pub fn remote_endpoint(&self) -> (endpoint: IpEndpoint)
        ensures
            endpoint == self.syn.tuple.remote,
    {
        self.syn.tuple.remote
    }

    /// Set up a closed socket as the SYN-RECEIVED socket continuing the
    /// token's SYN. This mirrors what the SYN would have set up in a
    /// LISTEN-state socket: the SYN|ACK itself is built by the socket's
    /// dispatch from this state. `local_seq_no` and `tsval_offset` are random.
    ///
    /// The socket takes over the listener's interface binding, overwriting its
    /// own: the connection's traffic is on that link, and the SYN|ACK and
    /// everything after must leave through it.
    pub fn start_syn_received(
        self,
        s: &mut TcpSocketState,
        local_seq_no: TcpSeqNumber,
        tsval_offset: u32,
    )
        requires
            old(s).state == State::Closed,
        ensures
            *final(s) == (TcpSocketState {
                state: State::SynReceived,
                tuple: Some(self.syn.tuple),
                binding: self.binding,
                local_seq_no,
                remote_seq_no: self.syn.remote_seq_no,
                remote_last_seq: local_seq_no,
                remote_has_sack: self.syn.remote_has_sack,
                remote_win_scale: self.syn.remote_win_scale,
                // A remote that doesn't support window scaling gets none.
                remote_win_shift: if self.syn.remote_win_scale is None {
                    0
                } else {
                    old(s).remote_win_shift
                },
                remote_win_len: self.syn.remote_win_len,
                remote_mss: self.syn.remote_mss,
                congestion_mss: self.syn.remote_mss,
                // Timestamps are answered only if the SYN offered them.
                timestamps: self.syn.timestamp is Some,
                last_remote_tsval: match self.syn.timestamp {
                    Some(timestamp) => timestamp.tsval,
                    None => 0,
                },
                tsval_offset,
            }),
    {
        let syn = self.syn;
        s.state = State::SynReceived;
        s.tuple = Some(syn.tuple);
        s.binding = self.binding;
        s.local_seq_no = local_seq_no;
        s.remote_seq_no = syn.remote_seq_no;
        s.remote_last_seq = s.local_seq_no;
        s.remote_has_sack = syn.remote_has_sack;
        s.remote_win_scale = syn.remote_win_scale;
        // Remote doesn't support window scaling, don't do it.
        if syn.remote_win_scale.is_none() {
            s.remote_win_shift = 0;
        }
        s.remote_win_len = syn.remote_win_len;
        s.remote_mss = syn.remote_mss;
        s.congestion_mss = syn.remote_mss;
        // Answer with timestamps only if the SYN offered them.
        s.timestamps = syn.timestamp.is_some();
        s.last_remote_tsval = match syn.timestamp {
            Some(timestamp) => timestamp.tsval,
            None => 0,
        };
        s.tsval_offset = tsval_offset;
    }
}

/// A TCP listener borrowed from a [`Stack`](crate::stack::Stack), returned by
/// [`Stack::tcp_listener`](crate::stack::Stack::tcp_listener).
///
/// Use a [`TcpListener`] to accept incoming TCP connections.
///
/// A listener can be bound to a port and optionally an address.
/// It receives all incoming connection attempts and queues them.
/// Calling [`accept`](TcpListener::accept) pops an attempt from the queue as
/// an [`AcceptToken`].
///
/// Connection attempts (SYN packets) are not answered (with a SYN|ACK packet)
/// until a socket accepts them.
pub struct TcpListener<'a> {
    pub listeners: &'a mut Slab<TcpListenerState, TCP_LISTENER_COUNT>,
    pub index: usize,
}

impl<'a> TcpListener<'a> {
    /// The state of the listener.
    pub open spec fn listener(&self) -> ListenerView {
        self.listeners@[self.index as int]@
    }

    /// The state of every listener.
    pub open spec fn all(&self) -> Map<int, ListenerView> {
        listener_views(self.listeners@)
    }

    /// The listener is there, and every listener is in order.
    pub open spec fn wf(&self) -> bool {
        self.listeners@.contains_key(self.index as int) && listeners_wf(self.all())
    }

    /// Whether this is `before`, with the listener changed as given, and
    /// everything else as it was.
    pub open spec fn becomes(&self, before: &Self, listener: ListenerView) -> bool {
        &&& self.index == before.index
        &&& self.listeners@.contains_key(self.index as int)
        &&& self.listeners@ =~= before.listeners@.insert(
            self.index as int,
            self.listeners@[self.index as int],
        )
        &&& self.listener() == listener
    }

    /// This listener's state in the slab.
    fn inner(&self) -> (state: &TcpListenerState)
        requires
            self.wf(),
        ensures
            state@ == self.listener(),
    {
        self.listeners.get(self.index)
    }

    /// Whether another listener is on this endpoint and interface.
    fn is_taken(&self, local: IpListenEndpoint, binding: IfaceBinding) -> (r: bool)
        requires
            self.wf(),
        ensures
            r == exists|i: int|
                #[trigger] self.all().contains_key(i) && i != self.index
                    && self.all()[i].local == local && self.all()[i].binding == binding,
    {
        let mut from: usize = 0;
        loop
            invariant
                forall|i: int|
                    0 <= i < from && #[trigger] self.all().contains_key(i) && i != self.index ==> !(
                    self.all()[i].local == local && self.all()[i].binding == binding),
            decreases usize::MAX - from,
        {
            match self.listeners.next_occupied(from) {
                Some(index) => {
                    let listener = self.listeners.get(index);
                    assert(self.all().contains_key(index as int));
                    if index != self.index && listener.local == local && listener.binding
                        == binding {
                        return true;
                    }
                    from = index + 1;
                },
                None => {
                    return false;
                },
            }
        }
    }

    /// Start listening on the given endpoint.
    ///
    /// Returns:
    /// - `Err(ListenError::Unaddressable)` if the port is zero.
    /// - `Err(ListenError::InvalidState)` if the listener is already listening
    ///   (unless it is listening on this same endpoint, which is a no-op).
    /// - `Err(ListenError::InUse)` if another listener is bound to an identical
    ///   endpoint. Listeners on the same port with *different* specificity (one
    ///   wildcard, one per-version, one per-address) may coexist, and so may
    ///   listeners on identical endpoints bound to different interfaces.
    pub fn listen(&mut self, local: IpListenEndpoint) -> (result: Result<(), ListenError>)
        requires
            old(self).wf(),
        ensures
            final(self).wf(),
            ({
                let before = old(self).listener();
                let taken = exists|i: int|
                    #[trigger] old(self).all().contains_key(i) && i != old(self).index
                        && old(self).all()[i].local == local && old(self).all()[i].binding
                        == before.binding;
                if local.port == 0 {
                    &&& result == Err::<(), ListenError>(ListenError::Unaddressable)
                    &&& final(self).becomes(old(self), before)
                } else if before.local.port != 0 {
                    &&& result == if before.local == local {
                        Ok::<(), ListenError>(())
                    } else {
                        Err::<(), ListenError>(ListenError::InvalidState)
                    }
                    &&& final(self).becomes(old(self), before)
                } else if taken {
                    &&& result == Err::<(), ListenError>(ListenError::InUse)
                    &&& final(self).becomes(old(self), before)
                } else {
                    &&& result == Ok::<(), ListenError>(())
                    &&& final(self).becomes(old(self), ListenerView { local, ..before })
                }
            }),
            *final(final(self).listeners) == *final(old(self).listeners),
    {
        if local.port == 0 {
            return Err(ListenError::Unaddressable);
        }
        if self.is_open() {
            if self.inner().local == local {
                return Ok(());
            }
            return Err(ListenError::InvalidState);
        }
        let binding = self.inner().binding;
        if self.is_taken(local, binding) {
            return Err(ListenError::InUse);
        }
        let ghost before = self.all();
        let ghost index = self.index as int;
        self.listeners.get_mut(self.index).local = local;
        proof {
            let after = self.all();
            assert(before.contains_key(index));
            assert forall|i: int, j: int| #[trigger]
                after.contains_key(i) && #[trigger] after.contains_key(j) && i != j
                    && after[i].local.port != 0 implies !(after[i].local == after[j].local
                && after[i].binding == after[j].binding) by {
                assert(before.contains_key(i) && before.contains_key(j));
            }
            assert forall|i: int| #[trigger] after.contains_key(i) implies after[i].wf() by {
                assert(before.contains_key(i));
            }
        }
        Ok(())
    }

    /// Bind the listener to an interface, or unbind it with `None`.
    ///
    /// A listener bound to an interface only accepts connection attempts that arrive on that interface.
    ///
    /// When accepting a connection, the sockets inherit the binding.
    ///
    /// The listener must be closed. The binding is kept across
    /// [`close`](Self::close).
    ///
    /// Two listeners on the same endpoint can coexist if they are bound to different interfaces,
    /// or if one is not bound. In the latter case, the bound listener "wins" for incoming
    /// connections coming from the bound interface.
    ///
    /// Returns `Err(ListenError::InvalidState)` if the listener is open.
    pub fn bind_to_iface(&mut self, iface: Option<IfaceHandle>) -> (result: Result<
        (),
        ListenError,
    >)
        requires
            old(self).wf(),
        ensures
            final(self).wf(),
            if old(self).listener().local.port != 0 {
                &&& result == Err::<(), ListenError>(ListenError::InvalidState)
                &&& final(self).becomes(old(self), old(self).listener())
            } else {
                &&& result is Ok
                &&& final(self).becomes(
                    old(self),
                    (ListenerView { binding: IfaceBinding::of(iface), ..old(self).listener() }),
                )
            },
            *final(final(self).listeners) == *final(old(self).listeners),
    {
        if self.is_open() {
            return Err(ListenError::InvalidState);
        }
        let ghost before = self.all();
        self.listeners.get_mut(self.index).binding = IfaceBinding::from_iface(iface);
        proof {
            let after = self.all();
            lemma_closed_listener_changed(before, after, self.index as int);
        }
        Ok(())
    }

    /// Return the interface the listener is bound to, or `None`.
    ///
    /// See [`bind_to_iface`](Self::bind_to_iface).
    pub fn bound_iface(&self) -> (iface: Option<IfaceHandle>)
        requires
            self.wf(),
        ensures
            iface == self.listener().binding.bound(),
    {
        self.inner().binding.iface()
    }

    /// Stop listening, dropping all queued SYNs.
    ///
    /// The dropped SYNs are not reset. The clients' retransmissions are
    /// answered with an RST once the listener is gone.
    pub fn close(&mut self)
        requires
            old(self).wf(),
        ensures
            final(self).wf(),
            final(self).becomes(old(self), old(self).listener().closed()),
            *final(final(self).listeners) == *final(old(self).listeners),
    {
        let ghost before = self.all();
        let state = self.listeners.get_mut(self.index);
        state.local = IpListenEndpoint::unspecified();
        state.queue.clear();
        // Wake the task waiting, so it can notice the listener is closed.
        state.accept_waker.wake();
        proof {
            lemma_closed_listener_changed(before, self.all(), self.index as int);
        }
    }

    /// Whether the listener is listening.
    pub fn is_open(&self) -> (open: bool)
        requires
            self.wf(),
        ensures
            open == (self.listener().local.port != 0),
    {
        self.inner().local.port != 0
    }

    /// Return the listened endpoint. The address is the filter the listen scoped
    /// the listener to. A zero port means the listener is closed.
    pub fn local_endpoint(&self) -> (endpoint: IpListenEndpoint)
        requires
            self.wf(),
        ensures
            endpoint == self.listener().local,
    {
        self.inner().local
    }

    /// Register a waker for [`accept`](Self::accept).
    ///
    /// The waker is woken on state changes that might affect the return value of
    /// `accept` calls, such as a SYN being queued, or the listener closing.
    ///
    /// Notes:
    ///
    /// - Only one waker can be registered at a time. If another waker was previously
    ///   registered, it is overwritten and will no longer be woken.
    /// - The Waker is woken only once. Once woken, you must register it again before
    ///   it may be woken again.
    /// - "Spurious wakes" are allowed: a wake doesn't guarantee the result of
    ///   `accept` has changed.
    pub fn register_accept_waker(&mut self, waker: &Waker)
        requires
            old(self).wf(),
        ensures
            final(self).wf(),
            final(self).becomes(
                old(self),
                (ListenerView {
                    accept_waker: old(self).listener().accept_waker.registered(*waker),
                    ..old(self).listener()
                }),
            ),
            *final(final(self).listeners) == *final(old(self).listeners),
    {
        let ghost before = self.all();
        self.listeners.get_mut(self.index).accept_waker.register(waker);
        proof {
            lemma_listener_changed(before, self.all(), self.index as int);
        }
    }

    /// Whether a connection attempt is waiting to be [`accept`](Self::accept)ed.
    pub fn can_accept(&self) -> (r: bool)
        requires
            self.wf(),
        ensures
            r == (self.listener().queue.len() > 0),
    {
        !self.inner().queue.is_empty()
    }

    /// Accept a queued connection attempt.
    ///
    /// Returns an [`AcceptToken`], or `None` if none is
    /// queued.
    pub fn accept(&mut self) -> (token: Option<AcceptToken>)
        requires
            old(self).wf(),
        ensures
            final(self).wf(),
            ({
                let before = old(self).listener();
                if before.queue.len() == 0 {
                    token is None && final(self).becomes(old(self), before)
                } else {
                    &&& token == Some(
                        AcceptToken { syn: before.queue[0], binding: before.binding },
                    )
                    &&& final(self).becomes(
                        old(self),
                        ListenerView { queue: before.queue.drop_first(), ..before },
                    )
                }
            }),
            *final(final(self).listeners) == *final(old(self).listeners),
    {
        let ghost before = self.all();
        let ghost index = self.index as int;
        assert(before.contains_key(index));
        let state = self.listeners.get_mut(self.index);
        let token = match state.queue.pop_front() {
            Some(syn) => {
                let binding = state.binding;
                Some(AcceptToken { syn, binding })
            },
            None => None,
        };
        proof {
            let queue = before[index].queue;
            if queue.len() > 0 {
                let rest = queue.drop_first();
                assert forall|i: int, j: int| 0 <= i < j < rest.len() implies
                    different_connections()(#[trigger] rest[i], #[trigger] rest[j]) by {
                    assert(rest[i] == queue[i + 1] && rest[j] == queue[j + 1]);
                    assert(different_connections()(queue[i + 1], queue[j + 1]));
                }
            }
            lemma_listener_changed(before, self.all(), index);
        }
        token
    }
}

/// Changing what one listener holds, but not where it listens, keeps the listeners
/// in order.
proof fn lemma_listener_changed(
    before: Map<int, ListenerView>,
    after: Map<int, ListenerView>,
    index: int,
)
    requires
        listeners_wf(before),
        before.contains_key(index),
        after =~= before.insert(index, after[index]),
        after[index].wf(),
        after[index].local == before[index].local,
        after[index].binding == before[index].binding,
    ensures
        listeners_wf(after),
{
    assert forall|i: int, j: int| #[trigger]
        after.contains_key(i) && #[trigger] after.contains_key(j) && i != j
            && after[i].local.port != 0 implies !(after[i].local == after[j].local
        && after[i].binding == after[j].binding) by {
        assert(before.contains_key(i) && before.contains_key(j));
    }
    assert forall|i: int| #[trigger] after.contains_key(i) implies after[i].wf() by {
        assert(before.contains_key(i));
    }
}

/// A listener that is closed is in nobody's way.
proof fn lemma_closed_listener_changed(
    before: Map<int, ListenerView>,
    after: Map<int, ListenerView>,
    index: int,
)
    requires
        listeners_wf(before),
        before.contains_key(index),
        after =~= before.insert(index, after[index]),
        after[index].wf(),
        after[index].local.port == 0,
    ensures
        listeners_wf(after),
{
    assert forall|i: int, j: int| #[trigger]
        after.contains_key(i) && #[trigger] after.contains_key(j) && i != j
            && after[i].local.port != 0 implies !(after[i].local == after[j].local
        && after[i].binding == after[j].binding) by {
        assert(before.contains_key(i) && before.contains_key(j));
    }
    assert forall|i: int| #[trigger] after.contains_key(i) implies after[i].wf() by {
        assert(before.contains_key(i));
    }
}

/// Offering a segment to the listeners keeps them in order: in particular, no
/// queue ever holds two attempts of one connection, or more than fit.
pub proof fn offering_keeps_listeners_wf(
    listeners: Map<int, ListenerView>,
    iface: IfaceHandle,
    src_addr: IpAddress,
    dst_addr: IpAddress,
    repr: TcpRepr,
)
    requires
        listeners_wf(listeners),
    ensures
        listeners_wf(offered(listeners, iface, src_addr, dst_addr, repr).0),
{
    let tuple = tuple_of(src_addr, dst_addr, repr);
    let after = offered(listeners, iface, src_addr, dst_addr, repr).0;
    if repr.control == TcpControl::Syn && repr.ack_number is None {
        if let Some(i) = best_listener(listeners, iface, dst_addr, repr.dst_port) {
            assert(is_best_listener(listeners, iface, dst_addr, repr.dst_port, i));
            assert(listeners.contains_key(i));
            lemma_recorded_wf(listeners[i], syn_of(src_addr, dst_addr, repr));
            lemma_listener_changed(listeners, after, i);
        }
    } else if repr.control == TcpControl::Rst {
        let p = is_hit_by(iface, tuple, repr.seq_number);
        lemma_first_slot_known(listeners, p);
        if let Some(i) = first_slot(listeners, p) {
            assert(listeners.contains_key(i));
            lemma_reset_wf(listeners[i], tuple, repr.seq_number);
            lemma_listener_changed(listeners, after, i);
        }
    }
}

/// A SYN that is recorded waits in the queue, unless the queue is full of others.
pub proof fn recorded_syn_waits(listener: ListenerView, syn: PendingSyn)
    requires
        listener.queue.len() < TCP_LISTENER_BACKLOG || exists|i: int|
            0 <= i < listener.queue.len() && (#[trigger] listener.queue[i]).tuple == syn.tuple,
    ensures
        listener.recorded(syn).queue.contains(syn),
{
    lemma_position(listener.queue, is_of(syn.tuple));
    let after = listener.recorded(syn).queue;
    match position(listener.queue, is_of(syn.tuple)) {
        Some(i) => {
            assert(after[i] == syn);
        },
        None => {
            if exists|i: int|
                0 <= i < listener.queue.len() && (#[trigger] listener.queue[i]).tuple
                    == syn.tuple {
                let i = choose|i: int|
                    0 <= i < listener.queue.len() && (#[trigger] listener.queue[i]).tuple
                        == syn.tuple;
                assert(!is_of(syn.tuple)(listener.queue[i]));
            }
            assert(after[after.len() - 1] == syn);
        },
    }
}

/// Sending a SYN again does not queue a second attempt.
pub proof fn repeated_syn_is_not_queued_twice(listener: ListenerView, syn: PendingSyn)
    ensures
        listener.recorded(syn).recorded(syn) == listener.recorded(syn),
{
    let once = listener.recorded(syn);
    let p = is_of(syn.tuple);
    lemma_position(listener.queue, p);
    match position(listener.queue, p) {
        Some(i) => {
            assert forall|j: int| 0 <= j < i implies !p(#[trigger] once.queue[j]) by {
                assert(!p(listener.queue[j]));
            }
            lemma_position_is(once.queue, p, i);
            assert(once.queue.update(i, syn) =~= once.queue);
        },
        None => {
            if listener.queue.len() < TCP_LISTENER_BACKLOG {
                let last = listener.queue.len() as int;
                assert forall|j: int| 0 <= j < last implies !p(#[trigger] once.queue[j]) by {
                    assert(!p(listener.queue[j]));
                }
                lemma_position_is(once.queue, p, last);
                assert(once.queue.update(last, syn) =~= once.queue);
            }
        },
    }
}

/// An RST with the right sequence number takes the attempt back: it is no longer
/// in the queue.
pub proof fn reset_syn_is_gone(listener: ListenerView, tuple: Tuple, seq_number: TcpSeqNumber)
    ensures
        !listener.reset(tuple, seq_number).is_reset_by(tuple, seq_number),
{
    let left = survives(tuple, seq_number);
    let after = listener.reset(tuple, seq_number).queue;
    assert forall|i: int| 0 <= i < after.len() implies !resets(
        #[trigger] after[i],
        tuple,
        seq_number,
    ) by {
        lemma_filter_from(listener.queue, left, i);
    }
}

/// An RST with another sequence number, or of another connection, changes nothing.
pub proof fn wrong_reset_changes_nothing(
    listener: ListenerView,
    tuple: Tuple,
    seq_number: TcpSeqNumber,
)
    requires
        !listener.is_reset_by(tuple, seq_number),
    ensures
        listener.reset(tuple, seq_number) == listener,
{
    lemma_filter_all(listener.queue, survives(tuple, seq_number));
}

/// An RST takes back only the attempt it is aimed at: the other ones stay.
pub proof fn reset_keeps_other_attempts(
    listener: ListenerView,
    tuple: Tuple,
    seq_number: TcpSeqNumber,
    index: int,
)
    requires
        0 <= index < listener.queue.len(),
        listener.queue[index].tuple != tuple,
    ensures
        listener.reset(tuple, seq_number).queue.contains(listener.queue[index]),
{
    lemma_filter_keeps(listener.queue, survives(tuple, seq_number), index);
}

/// The newest SYN of a connection is the one that counts: no other one of it is left,
/// and the attempts of other connections stay where they are.
pub proof fn newest_syn_wins(listener: ListenerView, syn: PendingSyn, index: int)
    requires
        listener.wf(),
        listener.local.port != 0,
        0 <= index < listener.recorded(syn).queue.len(),
    ensures
        listener.recorded(syn).queue[index].tuple == syn.tuple ==> listener.recorded(
            syn,
        ).queue[index] == syn,
        listener.recorded(syn).queue[index].tuple != syn.tuple ==> index < listener.queue.len()
            && listener.recorded(syn).queue[index] == listener.queue[index],
{
    let p = is_of(syn.tuple);
    let queue = listener.queue;
    lemma_position(queue, p);
    match position(queue, p) {
        Some(i) => {
            assert(p(queue[i]));
            if index < i {
                assert(different_connections()(queue[index], queue[i]));
            } else if i < index {
                assert(different_connections()(queue[i], queue[index]));
            }
        },
        None => {
            if index < queue.len() {
                assert(!p(queue[index]));
            }
        },
    }
}

/// A listener that is closed takes no connection attempt.
pub proof fn closed_listener_takes_nothing(
    listener: ListenerView,
    arrival: IfaceHandle,
    dst_addr: IpAddress,
    dst_port: u16,
)
    requires
        listener.local.port == 0,
    ensures
        listener.score(arrival, dst_addr, dst_port) is None,
{
}

/// A connection attempt is recorded by one listener: the others stay as they are.
pub proof fn one_listener_takes_a_segment(
    listeners: Map<int, ListenerView>,
    iface: IfaceHandle,
    src_addr: IpAddress,
    dst_addr: IpAddress,
    repr: TcpRepr,
    i: int,
    j: int,
)
    requires
        listeners.contains_key(i),
        listeners.contains_key(j),
        i != j,
    ensures
        ({
            let after = offered(listeners, iface, src_addr, dst_addr, repr).0;
            after[i] == listeners[i] || after[j] == listeners[j]
        }),
{
}

/// A listener that matches and is more specific than every other one gets the SYN.
pub proof fn most_specific_listener_gets_the_syn(
    listeners: Map<int, ListenerView>,
    arrival: IfaceHandle,
    dst_addr: IpAddress,
    dst_port: u16,
    index: int,
)
    requires
        0 <= index,
        listeners.contains_key(index),
        listeners[index].score(arrival, dst_addr, dst_port) is Some,
        forall|i: int|
            i != index && #[trigger] listeners.contains_key(i) ==> (listeners[i].score(
                arrival,
                dst_addr,
                dst_port,
            ) matches Some(score) ==> score < listeners[index].score(
                arrival,
                dst_addr,
                dst_port,
            )->0),
    ensures
        best_listener(listeners, arrival, dst_addr, dst_port) == Some(index),
{
    assert(is_best_listener(listeners, arrival, dst_addr, dst_port, index));
    lemma_best_listener(listeners, arrival, dst_addr, dst_port, index);
}

/// A listener for one address takes its connections away from one for the
/// address's version, and that one from a listener for any address. A listener
/// bound to the arrival interface takes them away from any that is not.
pub proof fn specific_listeners_win(
    specific: ListenerView,
    general: ListenerView,
    arrival: IfaceHandle,
    dst_addr: IpAddress,
    dst_port: u16,
)
    requires
        specific.score(arrival, dst_addr, dst_port) is Some,
        general.score(arrival, dst_addr, dst_port) is Some,
        (specific.binding == IfaceBinding::Iface(arrival) && general.binding == IfaceBinding::Any)
            || (specific.binding == general.binding && (specific.local.addr is Exact
            && !(general.local.addr is Exact) || specific.local.addr is Version
            && general.local.addr is Any)),
    ensures
        specific.score(arrival, dst_addr, dst_port)->0 > general.score(
            arrival,
            dst_addr,
            dst_port,
        )->0,
{
}

/// Goes through the TCP listeners of a [`Stack`], returned by
/// [`Stack::tcp_listeners`](crate::stack::Stack::tcp_listeners).
///
/// Each item borrows the stack, so only one can exist at a time.
pub struct TcpListenerIter<'a, D> {
    pub stack: &'a mut Stack<D>,
    pub next: usize,
}

impl<'a, D> TcpListenerIter<'a, D> {
    /// Get the next TCP listener, with its handle.
    ///
    /// Returns `None` when there are no more.
    pub fn next(&mut self) -> (item: Option<(TcpListenerHandle, TcpListener<'_>)>)
        requires
            old(self).stack.wf(),
        ensures
            match item {
                Some((handle, listener)) => {
                    &&& is_next_slot(
                        old(self).stack.sockets.tcp_listeners@,
                        old(self).next as int,
                        handle.index as int,
                    )
                    &&& final(self).next == handle.index + 1
                    &&& listener.wf()
                    &&& listener.index == handle.index
                    &&& *listener.listeners == old(self).stack.sockets.tcp_listeners
                    &&& final(self).stack.sockets.tcp_listeners == *final(listener.listeners)
                    &&& final(self).stack.sockets.raw == old(self).stack.sockets.raw
                    &&& final(self).stack.inner == old(self).stack.inner
                    &&& final(self).stack.ifaces == old(self).stack.ifaces
                },
                None => {
                    &&& no_next_slot(old(self).stack.sockets.tcp_listeners@, old(self).next as int)
                    &&& *final(self).stack == *old(self).stack
                    &&& final(self).next == old(self).next
                },
            },
            *final(final(self).stack) == *final(old(self).stack),
    {
        match self.stack.sockets.tcp_listeners.next_occupied(self.next) {
            Some(index) => {
                self.next = index + 1;
                let handle = TcpListenerHandle::new(index);
                Some((handle, self.stack.tcp_listener(handle)))
            },
            None => None,
        }
    }
}

/// A new connection attempt that is queued wakes the task that waits to accept, one
/// that is sent again does not. Closing the listener wakes it too.
pub proof fn new_attempt_wakes_the_acceptor(listener: ListenerView, syn: PendingSyn)
    requires
        listener.queue.len() < TCP_LISTENER_BACKLOG,
    ensures
        position(listener.queue, is_of(syn.tuple)) is None ==> listener.recorded(syn).accept_waker
            == listener.accept_waker.fired(),
        position(listener.queue, is_of(syn.tuple)) is Some ==> listener.recorded(syn).accept_waker
            == listener.accept_waker,
        listener.closed().accept_waker == listener.accept_waker.fired(),
{
}

} // verus!

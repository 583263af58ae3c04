//! What holds of connection attempts.

use super::listener::{
    best_listener, is_best_listener, is_hit_by, is_of, lemma_best_listener, listeners_wf, offered,
    survives, syn_of, tuple_of, ListenerView, PendingSyn,
};
use super::{TcpControl, TcpRepr};
use crate::config::TCP_LISTENER_BACKLOG;
use crate::iface::{IfaceBinding, IfaceHandle};
use crate::lists::{
    lemma_filter_drops, lemma_filter_from, lemma_filter_keeps, lemma_position, position,
};
use crate::storage::slab::{
    first_slot, lemma_first_slot_found, lemma_first_slot_known, lemma_no_first_slot,
};
use crate::wire::{IpAddress, IpListenAddress, IpVersion};
use vstd::prelude::*;

verus! {

/// Whether a pending attempt is of the connection of a segment: from its source address
/// and port to its destination address and port.
pub open spec fn is_attempt_of(
    syn: PendingSyn,
    src_addr: IpAddress,
    dst_addr: IpAddress,
    repr: TcpRepr,
) -> bool {
    &&& syn.tuple.local.addr == dst_addr
    &&& syn.tuple.local.port == repr.dst_port
    &&& syn.tuple.remote.addr == src_addr
    &&& syn.tuple.remote.port == repr.src_port
}

/// Whether a pending attempt carries what a SYN offered. The next byte expected is the
/// one after the SYN, and sequence numbers wrap around. The window is not scaled. Without
/// a segment size, or with one of zero, 536 bytes are sent at a time, and never fewer
/// than 48.
pub open spec fn carries_the_offer(syn: PendingSyn, repr: TcpRepr) -> bool {
    &&& syn.remote_seq_no.0 == if repr.seq_number.0 == 0xffff_ffff {
        0
    } else {
        repr.seq_number.0 + 1
    }
    &&& syn.remote_win_len == repr.window_len
    &&& syn.remote_win_scale == repr.window_scale
    &&& syn.remote_has_sack == repr.sack_permitted
    &&& syn.timestamp == repr.timestamp
    &&& repr.max_seg_size is None || repr.max_seg_size == Some(0u16) ==> syn.remote_mss == 536
    &&& repr.max_seg_size matches Some(mss) ==> (0 < mss < 48 ==> syn.remote_mss == 48) && (mss
        >= 48 ==> syn.remote_mss == mss)
}

/// What is recorded of a SYN is its connection and what it offered.
pub proof fn recorded_attempt_carries_the_offer(
    src_addr: IpAddress,
    dst_addr: IpAddress,
    repr: TcpRepr,
)
    ensures
        is_attempt_of(syn_of(src_addr, dst_addr, repr), src_addr, dst_addr, repr),
        carries_the_offer(syn_of(src_addr, dst_addr, repr), repr),
{
}

/// Whether a listener takes connections to an address and port that arrive on an
/// interface: it listens on the port, on a set of addresses that the address is in, and
/// on every interface or this one.
pub open spec fn listens_for(
    listener: ListenerView,
    arrival: IfaceHandle,
    dst_addr: IpAddress,
    dst_port: u16,
) -> bool {
    &&& listener.local.port == dst_port
    &&& dst_port != 0
    &&& match listener.local.addr {
        IpListenAddress::Any => true,
        IpListenAddress::Version(IpVersion::V4) => dst_addr is Ipv4,
        IpListenAddress::Version(IpVersion::V6) => dst_addr is Ipv6,
        IpListenAddress::Exact(addr) => addr == dst_addr,
    }
    &&& match listener.binding {
        IfaceBinding::Any => true,
        IfaceBinding::Iface(iface) => iface == arrival,
    }
}

/// Whether a listener is more specific than another: bound to an interface where the
/// other is not, or bound alike, and for one address where the other is for several, or
/// for one version where the other is for both.
pub open spec fn is_more_specific(a: ListenerView, b: ListenerView) -> bool {
    ||| a.binding is Iface && b.binding is Any
    ||| (a.binding is Iface <==> b.binding is Iface) && (a.local.addr is Exact && !(
    b.local.addr is Exact) || a.local.addr is Version && b.local.addr is Any)
}

/// A listener has a score for a segment if and only if it takes it, and the more
/// specific of two has the higher one.
proof fn lemma_score(
    a: ListenerView,
    b: ListenerView,
    arrival: IfaceHandle,
    dst_addr: IpAddress,
    dst_port: u16,
)
    ensures
        a.score(arrival, dst_addr, dst_port) is Some <==> listens_for(
            a,
            arrival,
            dst_addr,
            dst_port,
        ),
        a.score(arrival, dst_addr, dst_port) is Some && b.score(arrival, dst_addr, dst_port) is Some
            ==> (a.score(arrival, dst_addr, dst_port)->0 > b.score(arrival, dst_addr, dst_port)->0
            <==> is_more_specific(a, b)),
{
}

/// Whether a SYN to an address and port goes to the listener at `index`: it takes it, none
/// that takes it is more specific, and none before it is as specific.
pub open spec fn is_listener_for(
    listeners: Map<int, ListenerView>,
    arrival: IfaceHandle,
    dst_addr: IpAddress,
    dst_port: u16,
    index: int,
) -> bool {
    &&& 0 <= index
    &&& listeners.contains_key(index)
    &&& listens_for(listeners[index], arrival, dst_addr, dst_port)
    &&& forall|i: int|
        0 <= i && #[trigger] listeners.contains_key(i) && listens_for(
            listeners[i],
            arrival,
            dst_addr,
            dst_port,
        ) ==> !is_more_specific(listeners[i], listeners[index]) && (i < index ==> is_more_specific(
            listeners[index],
            listeners[i],
        ))
}

/// The most specific listener that takes a connection is the one chosen for it.
pub proof fn most_specific_listener_is_chosen(
    listeners: Map<int, ListenerView>,
    arrival: IfaceHandle,
    dst_addr: IpAddress,
    dst_port: u16,
    index: int,
)
    ensures
        best_listener(listeners, arrival, dst_addr, dst_port) == Some(index) <==> is_listener_for(
            listeners,
            arrival,
            dst_addr,
            dst_port,
            index,
        ) && best_listener(listeners, arrival, dst_addr, dst_port) is Some,
        is_listener_for(listeners, arrival, dst_addr, dst_port, index) ==> best_listener(
            listeners,
            arrival,
            dst_addr,
            dst_port,
        ) == Some(index),
{
    assert forall|i: int, j: int| true implies (#[trigger] listeners[i].score(
        arrival,
        dst_addr,
        dst_port,
    ) is Some <==> listens_for(listeners[i], arrival, dst_addr, dst_port)) && (
    listeners[i].score(arrival, dst_addr, dst_port) is Some && #[trigger] listeners[j].score(
        arrival,
        dst_addr,
        dst_port,
    ) is Some ==> (listeners[i].score(arrival, dst_addr, dst_port)->0 > listeners[j].score(
        arrival,
        dst_addr,
        dst_port,
    )->0 <==> is_more_specific(listeners[i], listeners[j]))) by {
        lemma_score(listeners[i], listeners[j], arrival, dst_addr, dst_port);
    }
    if is_listener_for(listeners, arrival, dst_addr, dst_port, index) {
        assert forall|i: int| 0 <= i && #[trigger] listeners.contains_key(i) implies match listeners[i].score(
            arrival,
            dst_addr,
            dst_port,
        ) {
            Some(score) => score <= listeners[index].score(arrival, dst_addr, dst_port)->0 && (i
                < index ==> score < listeners[index].score(arrival, dst_addr, dst_port)->0),
            None => true,
        } by {
            lemma_score(listeners[i], listeners[index], arrival, dst_addr, dst_port);
            lemma_score(listeners[index], listeners[i], arrival, dst_addr, dst_port);
        }
        lemma_score(listeners[index], listeners[index], arrival, dst_addr, dst_port);
        assert(is_best_listener(listeners, arrival, dst_addr, dst_port, index));
        lemma_best_listener(listeners, arrival, dst_addr, dst_port, index);
    }
    if best_listener(listeners, arrival, dst_addr, dst_port) == Some(index) {
        assert(is_best_listener(listeners, arrival, dst_addr, dst_port, index));
        lemma_score(listeners[index], listeners[index], arrival, dst_addr, dst_port);
        assert forall|i: int|
            0 <= i && #[trigger] listeners.contains_key(i) && listens_for(
                listeners[i],
                arrival,
                dst_addr,
                dst_port,
            ) implies !is_more_specific(listeners[i], listeners[index]) && (i < index
            ==> is_more_specific(listeners[index], listeners[i])) by {
            lemma_score(listeners[i], listeners[index], arrival, dst_addr, dst_port);
            lemma_score(listeners[index], listeners[i], arrival, dst_addr, dst_port);
        }
    }
}

/// A SYN is queued on the most specific listener that takes it, as one attempt that
/// carries what the SYN offered, in place of an earlier one of the same connection or else
/// behind those that wait. A new attempt wakes the task that waits to accept. It is dropped
/// if the queue is full. Nothing else changes.
pub proof fn syn_is_queued_as_it_came(
    listeners: Map<int, ListenerView>,
    iface: IfaceHandle,
    src_addr: IpAddress,
    dst_addr: IpAddress,
    repr: TcpRepr,
    index: int,
)
    requires
        listeners_wf(listeners),
        repr.control == TcpControl::Syn,
        repr.ack_number is None,
        is_listener_for(listeners, iface, dst_addr, repr.dst_port, index),
    ensures
        offered(listeners, iface, src_addr, dst_addr, repr).1,
        ({
            let before = listeners[index];
            let after = offered(listeners, iface, src_addr, dst_addr, repr).0[index];
            let known = exists|i: int|
                0 <= i < before.queue.len() && is_attempt_of(
                    #[trigger] before.queue[i],
                    src_addr,
                    dst_addr,
                    repr,
                );
            &&& after.local == before.local
            &&& after.binding == before.binding
            &&& !known && before.queue.len() >= TCP_LISTENER_BACKLOG ==> after == before
            &&& !known && before.queue.len() < TCP_LISTENER_BACKLOG ==> {
                &&& after.queue.len() == before.queue.len() + 1
                &&& after.queue.drop_last() == before.queue
                &&& is_attempt_of(after.queue.last(), src_addr, dst_addr, repr)
                &&& carries_the_offer(after.queue.last(), repr)
                &&& after.accept_waker.waiting is None
                &&& before.accept_waker.waiting matches Some(waker) ==> after.accept_waker.woken
                    == before.accept_waker.woken.push(waker)
            }
            &&& known ==> {
                &&& after.accept_waker == before.accept_waker
                &&& after.queue.len() == before.queue.len()
                &&& forall|i: int|
                    0 <= i < before.queue.len() ==> if is_attempt_of(
                        #[trigger] before.queue[i],
                        src_addr,
                        dst_addr,
                        repr,
                    ) {
                        is_attempt_of(after.queue[i], src_addr, dst_addr, repr)
                            && carries_the_offer(after.queue[i], repr)
                    } else {
                        after.queue[i] == before.queue[i]
                    }
            }
        }),
        forall|i: int|
            i != index && #[trigger] listeners.contains_key(i) ==> offered(
                listeners,
                iface,
                src_addr,
                dst_addr,
                repr,
            ).0[i] == listeners[i],
{
    most_specific_listener_is_chosen(listeners, iface, dst_addr, repr.dst_port, index);
    recorded_attempt_carries_the_offer(src_addr, dst_addr, repr);
    let before = listeners[index];
    let syn = syn_of(src_addr, dst_addr, repr);
    let after = before.recorded(syn);
    let p = is_of(syn.tuple);
    assert(before.wf());
    lemma_position(before.queue, p);
    assert forall|i: int| 0 <= i < before.queue.len() implies p(#[trigger] before.queue[i])
        == is_attempt_of(before.queue[i], src_addr, dst_addr, repr) by {
        let entry = before.queue[i].tuple;
        assert(entry == syn.tuple <==> entry.local == syn.tuple.local && entry.remote
            == syn.tuple.remote);
    }
    match position(before.queue, p) {
        Some(k) => {
            assert(p(before.queue[k]));
            assert forall|i: int| 0 <= i < before.queue.len() && i != k implies !p(
                #[trigger] before.queue[i],
            ) by {
                if i < k {
                    assert(super::listener::different_connections()(
                        before.queue[i],
                        before.queue[k],
                    ));
                } else {
                    assert(super::listener::different_connections()(
                        before.queue[k],
                        before.queue[i],
                    ));
                }
            }
        },
        None => {
            assert forall|i: int| 0 <= i < before.queue.len() implies !is_attempt_of(
                #[trigger] before.queue[i],
                src_addr,
                dst_addr,
                repr,
            ) by {
                assert(!p(before.queue[i]));
            }
            if before.queue.len() < TCP_LISTENER_BACKLOG {
                assert(after.queue.drop_last() =~= before.queue);
            }
        },
    }
}

/// A SYN that no listener takes, and any segment that is neither a SYN without an
/// acknowledgement nor an RST, is left alone.
pub proof fn other_segments_are_left_alone(
    listeners: Map<int, ListenerView>,
    iface: IfaceHandle,
    src_addr: IpAddress,
    dst_addr: IpAddress,
    repr: TcpRepr,
)
    requires
        repr.control != TcpControl::Rst,
        repr.control != TcpControl::Syn || repr.ack_number is Some || forall|i: int|
            0 <= i && #[trigger] listeners.contains_key(i) ==> !listens_for(
                listeners[i],
                iface,
                dst_addr,
                repr.dst_port,
            ),
    ensures
        offered(listeners, iface, src_addr, dst_addr, repr) == (listeners, false),
{
    if repr.control == TcpControl::Syn && repr.ack_number is None {
        if let Some(i) = best_listener(listeners, iface, dst_addr, repr.dst_port) {
            assert(is_best_listener(listeners, iface, dst_addr, repr.dst_port, i));
            assert(listeners.contains_key(i));
            lemma_score(listeners[i], listeners[i], iface, dst_addr, repr.dst_port);
        }
    }
}

/// Whether an RST is aimed at a pending attempt: it is of its connection, and its sequence
/// number is the next one expected.
pub open spec fn is_aimed_at(
    syn: PendingSyn,
    src_addr: IpAddress,
    dst_addr: IpAddress,
    repr: TcpRepr,
) -> bool {
    is_attempt_of(syn, src_addr, dst_addr, repr) && repr.seq_number.0 == syn.remote_seq_no.0
}

/// Whether a listener that hears the interface has an attempt an RST is aimed at.
pub open spec fn has_target(
    listener: ListenerView,
    iface: IfaceHandle,
    src_addr: IpAddress,
    dst_addr: IpAddress,
    repr: TcpRepr,
) -> bool {
    &&& listener.binding == IfaceBinding::Any || listener.binding == IfaceBinding::Iface(iface)
    &&& exists|i: int|
        0 <= i < listener.queue.len() && is_aimed_at(
            #[trigger] listener.queue[i],
            src_addr,
            dst_addr,
            repr,
        )
}

/// A listener is hit by an RST if and only if it has an attempt the RST is aimed at.
proof fn lemma_hit(
    listener: ListenerView,
    iface: IfaceHandle,
    src_addr: IpAddress,
    dst_addr: IpAddress,
    repr: TcpRepr,
)
    ensures
        is_hit_by(iface, tuple_of(src_addr, dst_addr, repr), repr.seq_number)(listener)
            <==> has_target(listener, iface, src_addr, dst_addr, repr),
        forall|syn: PendingSyn| #[trigger]
            survives(tuple_of(src_addr, dst_addr, repr), repr.seq_number)(syn) == !is_aimed_at(
                syn,
                src_addr,
                dst_addr,
                repr,
            ),
{
    let tuple = tuple_of(src_addr, dst_addr, repr);
    assert forall|syn: PendingSyn| #[trigger]
        survives(tuple, repr.seq_number)(syn) == !is_aimed_at(syn, src_addr, dst_addr, repr) by {
        assert(syn.tuple == tuple <==> syn.tuple.local == tuple.local && syn.tuple.remote
            == tuple.remote);
        assert(repr.seq_number == syn.remote_seq_no <==> repr.seq_number.0 == syn.remote_seq_no.0);
    }
    assert forall|i: int| 0 <= i < listener.queue.len() implies super::listener::resets(
        #[trigger] listener.queue[i],
        tuple,
        repr.seq_number,
    ) == is_aimed_at(listener.queue[i], src_addr, dst_addr, repr) by {
        assert(survives(tuple, repr.seq_number)(listener.queue[i]) == !is_aimed_at(
            listener.queue[i],
            src_addr,
            dst_addr,
            repr,
        ));
    }
}

/// An RST takes back the attempt it is aimed at, from the first listener that has it, and
/// no other. An RST that is aimed at none changes nothing, and is not taken.
pub proof fn rst_takes_back_its_attempt(
    listeners: Map<int, ListenerView>,
    iface: IfaceHandle,
    src_addr: IpAddress,
    dst_addr: IpAddress,
    repr: TcpRepr,
    index: int,
)
    requires
        repr.control == TcpControl::Rst,
        0 <= index,
        listeners.contains_key(index),
    ensures
        has_target(listeners[index], iface, src_addr, dst_addr, repr) ==> offered(
            listeners,
            iface,
            src_addr,
            dst_addr,
            repr,
        ).1,
        (forall|i: int|
            0 <= i && #[trigger] listeners.contains_key(i) ==> !has_target(
                listeners[i],
                iface,
                src_addr,
                dst_addr,
                repr,
            )) ==> offered(listeners, iface, src_addr, dst_addr, repr) == (listeners, false),
        ({
            let before = listeners[index];
            let after = offered(listeners, iface, src_addr, dst_addr, repr).0[index];
            let first = has_target(before, iface, src_addr, dst_addr, repr) && forall|i: int|
                0 <= i < index && #[trigger] listeners.contains_key(i) ==> !has_target(
                    listeners[i],
                    iface,
                    src_addr,
                    dst_addr,
                    repr,
                );
            &&& !first ==> after == before
            &&& after.local == before.local
            &&& after.binding == before.binding
            &&& after.accept_waker == before.accept_waker
            &&& first ==> after.queue.len() < before.queue.len() && (forall|k: int|
                0 <= k < after.queue.len() ==> !is_aimed_at(
                    #[trigger] after.queue[k],
                    src_addr,
                    dst_addr,
                    repr,
                )) && (forall|k: int|
                0 <= k < before.queue.len() && !is_aimed_at(
                    #[trigger] before.queue[k],
                    src_addr,
                    dst_addr,
                    repr,
                ) ==> after.queue.contains(before.queue[k]))
        }),
{
    let tuple = tuple_of(src_addr, dst_addr, repr);
    let p = is_hit_by(iface, tuple, repr.seq_number);
    let left = survives(tuple, repr.seq_number);
    assert forall|i: int| #[trigger] listeners.contains_key(i) implies p(listeners[i])
        == has_target(listeners[i], iface, src_addr, dst_addr, repr) by {
        lemma_hit(listeners[i], iface, src_addr, dst_addr, repr);
    }
    lemma_hit(listeners[index], iface, src_addr, dst_addr, repr);
    lemma_first_slot_known(listeners, p);
    if p(listeners[index]) {
        lemma_first_slot_found(listeners, p, index);
    }
    if forall|i: int|
        0 <= i && #[trigger] listeners.contains_key(i) ==> !has_target(
            listeners[i],
            iface,
            src_addr,
            dst_addr,
            repr,
        ) {
        lemma_no_first_slot(listeners, p);
    }
    if first_slot(listeners, p) == Some(index) {
        let before = listeners[index].queue;
        let after = before.filter(left);
        lemma_filter_drops(before, left);
        let hit = choose|i: int|
            0 <= i < before.len() && is_aimed_at(
                #[trigger] before[i],
                src_addr,
                dst_addr,
                repr,
            );
        assert(!left(before[hit]));
        assert forall|k: int| 0 <= k < after.len() implies !is_aimed_at(
            #[trigger] after[k],
            src_addr,
            dst_addr,
            repr,
        ) by {
            lemma_filter_from(before, left, k);
            assert(left(after[k]));
        }
        assert forall|k: int|
            0 <= k < before.len() && !is_aimed_at(
                #[trigger] before[k],
                src_addr,
                dst_addr,
                repr,
            ) implies after.contains(before[k]) by {
            assert(left(before[k]));
            lemma_filter_keeps(before, left, k);
        }
    }
}

/// A listener that is closed listens on no port and holds no attempt. It keeps its binding,
/// and wakes the task that waits to accept.
pub proof fn closed_listener_is_empty(listener: ListenerView)
    ensures
        listener.closed().local.port == 0,
        listener.closed().queue.len() == 0,
        listener.closed().binding == listener.binding,
        listener.closed().accept_waker.waiting is None,
        listener.accept_waker.waiting matches Some(waker) ==> listener.closed().accept_waker.woken
            == listener.accept_waker.woken.push(waker),
        ListenerView::not_listening().local.port == 0,
        ListenerView::not_listening().queue.len() == 0,
        ListenerView::not_listening().binding == IfaceBinding::Any,
{
}

} // verus!

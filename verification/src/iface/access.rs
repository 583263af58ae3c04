//! Access to the interfaces of a stack.

use super::dhcpv4_leases::{lease_views, LeaseView};
use super::dhcpv4_server::{DhcpServerConfig, DhcpServerLease, Server};
use super::slaac::{Slaac, SlaacConfig, SlaacState, SlaacView};
use super::slaac_sync::{lemma_filter_addrs_wf, reset_iface, reset_inner};
use super::state::{addr_assigned, addrs_wf, IfaceState, IfaceView, ServerView};
use super::{
    link_local_addr, link_local_of, link_local_of_is_link_local, AddrOrigin, IfaceAddr, IfaceHandle,
    Medium,
};
use crate::config::{IFACE_ADDR_COUNT, IFACE_COUNT};
use crate::driver::{Capabilities, Driver, DriverCall, LinkState, TxTimestamp};
use crate::lists::{lemma_position_is, lemma_position_none, position};
use crate::stack::{InnerView, LinkWorkView, Stack, StackInner};
use crate::storage::slab::{is_next_slot, no_next_slot};
use crate::storage::{BoundedVec, Full, Slab};
use crate::wire::{HardwareAddress, IpAddress, IpCidr, Ipv4Address};
use core::task::Waker;
use vstd::prelude::*;

verus! {

/// Whether the address is `addr`.
pub open spec fn is_addr(addr: IpAddress) -> spec_fn(IfaceAddr) -> bool {
    |assigned: IfaceAddr| assigned.cidr.addr() == addr
}

/// The interface with its configuration changed and what is known of its link
/// forgotten.
pub open spec fn invalidated(inner: InnerView, iface: IfaceHandle) -> InnerView {
    inner.with_work(LinkWorkView::Purge { iface })
}

/// Whether one of the addresses is the automatic link-local one.
pub open spec fn has_link_local(addrs: Seq<IfaceAddr>) -> bool {
    exists|i: int| 0 <= i < addrs.len() && (#[trigger] addrs[i]).origin == AddrOrigin::LinkLocal
}

/// The addresses without the automatic link-local one.
pub open spec fn not_link_local() -> spec_fn(IfaceAddr) -> bool {
    |addr: IfaceAddr| addr.origin != AddrOrigin::LinkLocal
}

/// The addresses of an interface whose hardware address becomes `addr`: the
/// automatic link-local address follows it, if there is room.
pub open spec fn readdressed(addrs: Seq<IfaceAddr>, addr: HardwareAddress) -> Seq<IfaceAddr> {
    let others = addrs.filter(not_link_local());
    match link_local_of(addr) {
        Some(link_local) => if others.len() < IFACE_ADDR_COUNT {
            others.push(link_local)
        } else {
            others
        },
        None => others,
    }
}

/// Whether a change of the hardware address to `addr` changes the addresses.
pub open spec fn readdressing_matters(addrs: Seq<IfaceAddr>, addr: HardwareAddress) -> bool {
    link_local_of(addr) is Some || has_link_local(addrs)
}

/// The addresses once each of `cidrs` was assigned in turn: one that is there already
/// gets its new prefix.
pub open spec fn assigned_in_turn(cidrs: Seq<IpCidr>) -> Seq<IfaceAddr>
    decreases cidrs.len(),
{
    if cidrs.len() == 0 {
        Seq::empty()
    } else {
        let before = assigned_in_turn(cidrs.drop_last());
        let last = IfaceAddr::by_hand(cidrs.last());
        match position(before, is_addr(cidrs.last().addr())) {
            Some(i) => before.update(i, last),
            None => before.push(last),
        }
    }
}

/// `addrs` with the automatic link-local addresses among `old` that are not there
/// yet.
pub open spec fn with_link_local(addrs: Seq<IfaceAddr>, old: Seq<IfaceAddr>) -> Seq<IfaceAddr>
    decreases old.len(),
{
    if old.len() == 0 {
        addrs
    } else {
        let before = with_link_local(addrs, old.drop_last());
        let last = old.last();
        if last.origin == AddrOrigin::LinkLocal && !addr_assigned(before, last.cidr.addr()) {
            before.push(last)
        } else {
            before
        }
    }
}

/// The set of addresses that replaces `old` when `cidrs` are assigned.
pub open spec fn replaced_addrs(old: Seq<IfaceAddr>, cidrs: Seq<IpCidr>) -> Seq<IfaceAddr> {
    with_link_local(assigned_in_turn(cidrs), old)
}

/// An interface borrowed from a [`Stack`], returned by
/// [`Stack::iface`](crate::stack::Stack::iface).
pub struct Iface<'a, D> {
    pub inner: &'a mut StackInner,
    pub ifaces: &'a mut Slab<IfaceState<D>, IFACE_COUNT>,
    pub index: usize,
}

impl<'a, D> Iface<'a, D> {
    /// The interface.
    pub open spec fn spec_state(&self) -> IfaceState<D> {
        self.ifaces@[self.index as int]
    }

    /// The interface is there, and in order.
    pub open spec fn wf(&self) -> bool {
        &&& self.ifaces@.contains_key(self.index as int)
        &&& self.spec_state()@.wf()
        &&& self.spec_state()@.handle.index == self.index
        &&& self.inner.wf()
    }

    /// Whether this is `before`, with the interface and what interfaces share
    /// changed as given, and everything else as it was.
    pub open spec fn becomes(&self, before: &Self, iface: IfaceView, inner: InnerView) -> bool {
        &&& self.wf()
        &&& self.index == before.index
        &&& self.ifaces@ =~= before.ifaces@.insert(self.index as int, self.spec_state())
        &&& self.spec_state()@ == iface
        &&& self.inner@ == inner
    }

    /// The interface.
    pub fn state(&self) -> (state: &IfaceState<D>)
        requires
            self.wf(),
        ensures
            *state == self.spec_state(),
    {
        self.ifaces.get(self.index)
    }

    /// The interface, to be changed.
    pub fn state_mut(&mut self) -> (state: &mut IfaceState<D>)
        requires
            old(self).wf(),
        ensures
            *state == old(self).spec_state(),
            final(self).index == old(self).index,
            final(self).ifaces@ == old(self).ifaces@.insert(old(self).index as int, *final(state)),
            *final(self).inner == *old(self).inner,
            *final(final(self).inner) == *final(old(self).inner),
            *final(final(self).ifaces) == *final(old(self).ifaces),
    {
        self.ifaces.get_mut(self.index)
    }

    /// The capabilities reported by the device.
    pub fn capabilities(&self) -> (caps: Capabilities)
        requires
            self.wf(),
        ensures
            caps == self.spec_state()@.caps,
    {
        self.state().caps
    }

    /// The interface's IP-layer MTU: the device MTU minus the link-layer header,
    /// clamped to what a packet buffer can carry.
    pub fn ip_mtu(&self) -> (mtu: usize)
        requires
            self.wf(),
        ensures
            mtu == self.spec_state()@.mtu(),
    {
        self.state().ip_mtu()
    }

    /// The hardware address of the interface.
    ///
    /// Initially the address the device reported when the interface was added.
    /// [`set_hardware_addr`](Self::set_hardware_addr) overrides it.
    pub fn hardware_addr(&self) -> (addr: HardwareAddress)
        requires
            self.wf(),
        ensures
            addr == self.spec_state()@.hardware_addr,
    {
        self.state().hardware_addr
    }

    /// Set the hardware address of the interface.
    ///
    /// The stack starts using it for the frames it sends and for ingress filtering
    /// immediately. It does not announce the change on the link, so peers keep the
    /// old address in their neighbor caches until it expires. Send a gratuitous ARP
    /// or unsolicited neighbor advertisement from a raw socket if that matters.
    ///
    /// An IEEE 802.15.4 interface must use an extended address. A short address
    /// is accepted, but the stack can not put it in NDISC link-layer address
    /// options, so neighbor discovery does not work with one.
    ///
    /// The address has to be of the kind the device's medium uses.
    pub fn set_hardware_addr(&mut self, addr: HardwareAddress)
        requires
            old(self).wf(),
            addr.used_on() == old(self).spec_state()@.medium,
        ensures
            ({
                let before = old(self).spec_state()@;
                let after = IfaceView {
                    hardware_addr: addr,
                    ip_addrs: readdressed(before.ip_addrs, addr),
                    ..before
                };
                if readdressing_matters(before.ip_addrs, addr) {
                    final(self).becomes(
                        old(self),
                        after.changed(),
                        invalidated(old(self).inner@, before.handle),
                    )
                } else {
                    final(self).becomes(old(self), after, old(self).inner@)
                }
            }),
            *final(final(self).inner) == *final(old(self).inner),
            *final(final(self).ifaces) == *final(old(self).ifaces),
    {
        let ghost before = self.spec_state()@;
        let link_local = link_local_addr(addr);
        let state = self.ifaces.get_mut(self.index);
        state.hardware_addr = addr;
        let had: bool = Self::any_link_local(state.ip_addrs.as_slice());
        let keep = |addr: &IfaceAddr| -> (r: bool)
            ensures
                r == not_link_local()(*addr),
            { addr.origin != AddrOrigin::LinkLocal };
        state.ip_addrs.retain(keep, Ghost(not_link_local()));
        proof {
            lemma_filter_addrs_wf(before.ip_addrs, not_link_local());
            link_local_of_is_link_local(addr);
        }
        if let Some(ll) = link_local {
            // If the address table is full, the link-local address is not assigned.
            let _ = state.ip_addrs.push(ll);
            self.invalidate();
        } else if had {
            self.invalidate();
        }
    }

    /// Whether one of the addresses is the automatic link-local one.
    fn any_link_local(addrs: &[IfaceAddr]) -> (r: bool)
        ensures
            r == has_link_local(addrs@),
    {
        let mut index: usize = 0;
        while index < addrs.len()
            invariant
                index <= addrs@.len(),
                forall|i: int|
                    0 <= i < index ==> (#[trigger] addrs@[i]).origin != AddrOrigin::LinkLocal,
            decreases addrs@.len() - index,
        {
            if addrs[index].origin == AddrOrigin::LinkLocal {
                return true;
            }
            index += 1;
        }
        false
    }

    /// The IP addresses assigned to the interface, with their origin.
    pub fn ip_addrs(&self) -> (addrs: &[IfaceAddr])
        requires
            self.wf(),
        ensures
            addrs@ == self.spec_state()@.ip_addrs,
    {
        self.state().ip_addrs.as_slice()
    }

    /// Check whether the given address is assigned to the interface.
    pub fn has_ip_addr(&self, addr: IpAddress) -> (r: bool)
        requires
            self.wf(),
        ensures
            r == addr_assigned(self.spec_state()@.ip_addrs, addr),
    {
        self.state().has_ip_addr(addr)
    }

    /// Where `addr` is among the addresses.
    fn find_addr(addrs: &[IfaceAddr], addr: IpAddress) -> (index: Option<usize>)
        ensures
            index is Some <==> position(addrs@, is_addr(addr)) is Some,
            index matches Some(i) ==> i < addrs@.len() && position(addrs@, is_addr(addr)) == Some(
                i as int,
            ),
    {
        let ghost p = is_addr(addr);
        let mut index: usize = 0;
        while index < addrs.len()
            invariant
                index <= addrs@.len(),
                p == is_addr(addr),
                forall|i: int| 0 <= i < index ==> !p(#[trigger] addrs@[i]),
            decreases addrs@.len() - index,
        {
            if addrs[index].cidr.address() == addr {
                proof {
                    lemma_position_is(addrs@, p, index as int);
                }
                return Some(index);
            }
            index += 1;
        }
        proof {
            lemma_position_none(addrs@, p);
        }
        None
    }

    /// Assign an IP address to the interface, which has to be unicast.
    ///
    /// If the same address is already assigned, its prefix is updated and the
    /// previous CIDR returned. Otherwise the address is appended and `None` is
    /// returned. Source address selection prefers the first address matching the
    /// destination's subnet, so ordering only matters between addresses of the same
    /// subnet.
    ///
    /// Errors:
    /// - `Full` if the interface has no room for another address. The limit is
    ///   [`IFACE_ADDR_COUNT`].
    pub fn add_ip_addr(&mut self, cidr: IpCidr) -> (result: Result<Option<IpCidr>, Full>)
        requires
            old(self).wf(),
            cidr.wf(),
            cidr.addr().unicast(),
        ensures
            ({
                let before = old(self).spec_state()@;
                match position(before.ip_addrs, is_addr(cidr.addr())) {
                    Some(i) => {
                        &&& result == Ok::<Option<IpCidr>, Full>(Some(before.ip_addrs[i].cidr))
                        &&& if before.ip_addrs[i].cidr == cidr {
                            final(self).becomes(old(self), before, old(self).inner@)
                        } else {
                            final(self).becomes(
                                old(self),
                                (IfaceView {
                                    ip_addrs: before.ip_addrs.update(i, IfaceAddr::by_hand(cidr)),
                                    ..before
                                }).changed(),
                                invalidated(old(self).inner@, before.handle),
                            )
                        }
                    },
                    None => if before.ip_addrs.len() < IFACE_ADDR_COUNT {
                        &&& result == Ok::<Option<IpCidr>, Full>(None)
                        &&& final(self).becomes(
                            old(self),
                            (IfaceView {
                                ip_addrs: before.ip_addrs.push(IfaceAddr::by_hand(cidr)),
                                ..before
                            }).changed(),
                            old(self).inner@,
                        )
                    } else {
                        &&& result is Err
                        &&& final(self).becomes(old(self), before, old(self).inner@)
                    },
                }
            }),
            *final(final(self).inner) == *final(old(self).inner),
            *final(final(self).ifaces) == *final(old(self).ifaces),
    {
        let state = self.ifaces.get_mut(self.index);
        match Self::find_addr(state.ip_addrs.as_slice(), cidr.address()) {
            Some(index) => {
                let old = *state.ip_addrs.get(index);
                if old.cidr == cidr {
                    return Ok(Some(cidr));
                }
                state.ip_addrs.set(index, IfaceAddr::manual(cidr));
                self.invalidate();
                Ok(Some(old.cidr))
            },
            None => {
                if state.ip_addrs.push(IfaceAddr::manual(cidr)).is_err() {
                    return Err(Full);
                }
                state.config_changed();
                Ok(None)
            },
        }
    }

    /// Unassign an IP address from the interface, returning the CIDR it was
    /// assigned with, or `None` if it was not assigned.
    pub fn remove_ip_addr(&mut self, addr: IpAddress) -> (removed: Option<IpCidr>)
        requires
            old(self).wf(),
        ensures
            ({
                let before = old(self).spec_state()@;
                match position(before.ip_addrs, is_addr(addr)) {
                    Some(i) => {
                        &&& removed == Some(before.ip_addrs[i].cidr)
                        &&& final(self).becomes(
                            old(self),
                            (IfaceView {
                                ip_addrs: before.ip_addrs.remove(i),
                                ..before
                            }).changed(),
                            invalidated(old(self).inner@, before.handle),
                        )
                    },
                    None => removed is None && final(self).becomes(
                        old(self),
                        before,
                        old(self).inner@,
                    ),
                }
            }),
            *final(final(self).inner) == *final(old(self).inner),
            *final(final(self).ifaces) == *final(old(self).ifaces),
    {
        let state = self.ifaces.get_mut(self.index);
        let index = match Self::find_addr(state.ip_addrs.as_slice(), addr) {
            Some(index) => index,
            None => {
                return None;
            },
        };
        let removed = state.ip_addrs.remove(index);
        self.invalidate();
        Some(removed.cidr)
    }

    /// The addresses assigned by hand, with the automatic link-local ones among
    /// `old` that are not there yet. `None` if they do not fit.
    fn build_addrs(cidrs: &[IpCidr], old: &[IfaceAddr]) -> (addrs: Option<
        BoundedVec<IfaceAddr, IFACE_ADDR_COUNT>,
    >)
        requires
            addrs_wf(old@),
            forall|i: int| 0 <= i < cidrs@.len() ==> (#[trigger] cidrs@[i]).wf(),
        ensures
            addrs is Some <==> replaced_addrs(old@, cidrs@).len() <= IFACE_ADDR_COUNT,
            addrs matches Some(addrs) ==> {
                &&& addrs@ == replaced_addrs(old@, cidrs@)
                &&& addrs_wf(addrs@)
            },
    {
        let mut addrs: BoundedVec<IfaceAddr, IFACE_ADDR_COUNT> = BoundedVec::new();
        let mut index: usize = 0;
        assert(cidrs@.take(0) =~= Seq::empty());
        while index < cidrs.len()
            invariant
                forall|i: int| 0 <= i < cidrs@.len() ==> (#[trigger] cidrs@[i]).wf(),
                index <= cidrs@.len(),
                addrs@ == assigned_in_turn(cidrs@.take(index as int)),
                addrs_wf(addrs@),
                addrs@.len() <= IFACE_ADDR_COUNT,
            decreases cidrs@.len() - index,
        {
            let cidr = cidrs[index];
            assert(cidrs@[index as int].wf());
            assert(cidrs@.take(index + 1).drop_last() =~= cidrs@.take(index as int));
            match Self::find_addr(addrs.as_slice(), cidr.address()) {
                Some(at) => {
                    addrs.set(at, IfaceAddr::manual(cidr));
                },
                None => {
                    if addrs.push(IfaceAddr::manual(cidr)).is_err() {
                        proof {
                            lemma_assigned_grows(cidrs@, index + 1);
                            lemma_link_local_grows(assigned_in_turn(cidrs@), old@);
                        }
                        return None;
                    }
                },
            }
            index += 1;
        }
        assert(cidrs@.take(index as int) =~= cidrs@);
        let ghost given = addrs@;
        let mut index: usize = 0;
        assert(old@.take(0) =~= Seq::empty());
        while index < old.len()
            invariant
                addrs_wf(old@),
                index <= old@.len(),
                given == assigned_in_turn(cidrs@),
                addrs@ == with_link_local(given, old@.take(index as int)),
                addrs_wf(addrs@),
                addrs@.len() <= IFACE_ADDR_COUNT,
            decreases old@.len() - index,
        {
            assert(old@.take(index + 1).drop_last() =~= old@.take(index as int));
            let addr = old[index];
            assert(old@[index as int].cidr.wf());
            if addr.origin == AddrOrigin::LinkLocal && !Self::is_assigned(
                addrs.as_slice(),
                addr.cidr.address(),
            ) {
                if addrs.push(addr).is_err() {
                    proof {
                        lemma_link_local_prefix(given, old@, index + 1);
                    }
                    return None;
                }
            }
            index += 1;
        }
        assert(old@.take(index as int) =~= old@);
        Some(addrs)
    }

    /// Whether `addr` is one of the addresses.
    fn is_assigned(addrs: &[IfaceAddr], addr: IpAddress) -> (r: bool)
        ensures
            r == addr_assigned(addrs@, addr),
    {
        match Self::find_addr(addrs, addr) {
            Some(i) => {
                proof {
                    crate::lists::lemma_position(addrs@, is_addr(addr));
                    assert(addrs@[i as int].cidr.addr() == addr);
                }
                true
            },
            None => {
                proof {
                    crate::lists::lemma_position(addrs@, is_addr(addr));
                    assert forall|i: int| 0 <= i < addrs@.len() implies (
                    #[trigger] addrs@[i]).cidr.addr() != addr by {
                        assert(!is_addr(addr)(addrs@[i]));
                    }
                }
                false
            },
        }
    }

    /// Whether two lists of addresses are equal.
    fn same_addrs(a: &[IfaceAddr], b: &[IfaceAddr]) -> (same: bool)
        ensures
            same == (a@ == b@),
    {
        if a.len() != b.len() {
            return false;
        }
        let mut index: usize = 0;
        while index < a.len()
            invariant
                a@.len() == b@.len(),
                index <= a@.len(),
                forall|i: int| 0 <= i < index ==> a@[i] == b@[i],
            decreases a@.len() - index,
        {
            if a[index] != b[index] {
                return false;
            }
            index += 1;
        }
        assert(a@ =~= b@);
        true
    }

    /// Replace the interface's entire set of IP addresses. They have to be unicast.
    ///
    /// Equivalent to removing every address and adding the given ones, one after
    /// the other. The automatic IPv6 link-local address is kept.
    ///
    /// Errors:
    /// - `Full` if the addresses do not fit. The limit is [`IFACE_ADDR_COUNT`].
    ///   The interface is left unchanged.
    pub fn set_ip_addrs(&mut self, new_addrs: &[IpCidr]) -> (result: Result<(), Full>)
        requires
            old(self).wf(),
            forall|i: int| 0 <= i < new_addrs@.len() ==> (#[trigger] new_addrs@[i]).wf(),
            assigned_in_turn(new_addrs@).len() <= IFACE_ADDR_COUNT ==> forall|i: int|
                0 <= i < new_addrs@.len() ==> (#[trigger] new_addrs@[i]).addr().unicast(),
        ensures
            ({
                let before = old(self).spec_state()@;
                let addrs = replaced_addrs(before.ip_addrs, new_addrs@);
                if addrs.len() > IFACE_ADDR_COUNT {
                    &&& result is Err
                    &&& final(self).becomes(old(self), before, old(self).inner@)
                } else if addrs == before.ip_addrs {
                    &&& result is Ok
                    &&& final(self).becomes(old(self), before, old(self).inner@)
                } else {
                    &&& result is Ok
                    &&& final(self).becomes(
                        old(self),
                        (IfaceView { ip_addrs: addrs, ..before }).changed(),
                        invalidated(old(self).inner@, before.handle),
                    )
                }
            }),
            *final(final(self).inner) == *final(old(self).inner),
            *final(final(self).ifaces) == *final(old(self).ifaces),
    {
        let addrs = match Self::build_addrs(new_addrs, self.state().ip_addrs.as_slice()) {
            Some(addrs) => addrs,
            None => {
                return Err(Full);
            },
        };
        let state = self.ifaces.get_mut(self.index);
        if Self::same_addrs(state.ip_addrs.as_slice(), addrs.as_slice()) {
            return Ok(());
        }
        state.ip_addrs = addrs;
        self.invalidate();
        Ok(())
    }

    /// Purge state associated to this interface.
    fn invalidate(&mut self)
        requires
            old(self).wf(),
        ensures
            final(self).becomes(
                old(self),
                old(self).spec_state()@.changed(),
                invalidated(old(self).inner@, old(self).spec_state()@.handle),
            ),
            *final(final(self).inner) == *final(old(self).inner),
            *final(final(self).ifaces) == *final(old(self).ifaces),
    {
        let handle = IfaceHandle::new(self.index);
        self.inner.purge_iface_link_state(handle);
        self.ifaces.get_mut(self.index).config_changed();
    }

    /// A counter that goes up every time the interface's configuration changes
    /// for any reason (manual changes, DHCP, SLAAC)
    ///
    /// Compare it with a saved value to find out whether anything changed since.
    pub fn config_generation(&self) -> (generation: u32)
        requires
            self.wf(),
        ensures
            generation == self.spec_state()@.config_generation,
    {
        self.state().config_generation
    }

    /// Register a waker to be woken when the interface changes state.
    ///
    /// It is woken when the link goes up or down, and when
    /// [`config_generation`](Self::config_generation) changes: addresses or routes
    /// added or removed, whether by hand or by DHCPv4 or SLAAC.
    ///
    /// Only one waker is kept. Registering another replaces it. A woken waker must
    /// be registered again to be woken again. Wakes are allowed to be spurious.
    pub fn register_waker(&mut self, waker: &Waker)
        requires
            old(self).wf(),
        ensures
            final(self).becomes(
                old(self),
                (IfaceView {
                    waker: old(self).spec_state()@.waker.registered(*waker),
                    ..old(self).spec_state()@
                }),
                old(self).inner@,
            ),
            *final(final(self).inner) == *final(old(self).inner),
            *final(final(self).ifaces) == *final(old(self).ifaces),
    {
        self.ifaces.get_mut(self.index).waker.register(waker);
    }

    /// Turn IPv6 stateless address autoconfiguration on, with the given
    /// configuration, or off with `None`. The interface has to be an Ethernet or
    /// IEEE 802.15.4 interface.
    ///
    /// While on, the stack sends router solicitations. Every prefix a router
    /// advertises for autoconfiguration becomes an address on the interface (the
    /// prefix plus the EUI-64 of the hardware address), and every advertising
    /// router becomes a default route. Both are removed when their lifetime runs
    /// out or when SLAAC is turned off. Turning it on when it is already on
    /// restarts it.
    pub fn set_slaac(&mut self, config: Option<SlaacConfig>)
        requires
            old(self).wf(),
            old(self).spec_state()@.medium != Medium::Ip,
        ensures
            final(self).becomes(
                old(self),
                (IfaceView {
                    slaac: match config {
                        Some(config) => Some(SlaacView::started(config)),
                        None => None,
                    },
                    ..reset_iface(old(self).spec_state()@)
                }),
                reset_inner(old(self).inner@, old(self).spec_state()@),
            ),
            *final(final(self).inner) == *final(old(self).inner),
            *final(final(self).ifaces) == *final(old(self).ifaces),
    {
        let state = self.ifaces.get_mut(self.index);
        state.slaac_reset(self.inner);
        state.slaac = match config {
            Some(config) => Some(Slaac::new(config)),
            None => None,
        };
    }

    /// Solicit routers again, keeping the addresses and routes already configured.
    ///
    /// Call it when the link comes back up. Does nothing if SLAAC is off.
    pub fn restart_slaac(&mut self)
        requires
            old(self).wf(),
        ensures
            final(self).becomes(
                old(self),
                (IfaceView {
                    slaac: match old(self).spec_state()@.slaac {
                        Some(slaac) => Some(slaac.restarted()),
                        None => None,
                    },
                    ..old(self).spec_state()@
                }),
                old(self).inner@,
            ),
            *final(final(self).inner) == *final(old(self).inner),
            *final(final(self).ifaces) == *final(old(self).ifaces),
    {
        let state = self.ifaces.get_mut(self.index);
        if let Some(slaac) = &mut state.slaac {
            slaac.restart();
        }
    }

    /// What SLAAC has learned from the routers on the link, or `None` if SLAAC is off.
    pub fn slaac(&self) -> (state: Option<&SlaacState>)
        requires
            self.wf(),
        ensures
            state is Some <==> self.spec_state()@.slaac is Some,
            state matches Some(state) ==> *state == self.spec_state()@.slaac->0.state,
    {
        match &self.state().slaac {
            Some(slaac) => Some(slaac.state()),
            None => None,
        }
    }

    /// Turn the DHCPv4 server on, with the given configuration, or off with `None`.
    /// The interface has to be an Ethernet interface, and the pool must not end
    /// before it starts.
    ///
    /// While on, the stack answers DHCP requests arriving on this interface,
    /// handing out addresses from the configured pool.
    ///
    /// You must configure at least one IPv4 address on the interface, and the
    /// pool must be inside its subnet.
    ///
    /// Turning the server off, or on again with a new configuration, drops all
    /// leases.
    pub fn set_dhcpv4_server(&mut self, config: Option<DhcpServerConfig>)
        requires
            old(self).wf(),
            old(self).spec_state()@.hardware_addr is Ethernet,
            config matches Some(config) ==> config.pool_start.bits <= config.pool_end.bits,
        ensures
            final(self).becomes(
                old(self),
                (IfaceView {
                    dhcpv4_server: match config {
                        Some(config) => Some(ServerView { config, leases: Seq::empty() }),
                        None => None,
                    },
                    ..old(self).spec_state()@
                }),
                old(self).inner@,
            ),
            *final(final(self).inner) == *final(old(self).inner),
            *final(final(self).ifaces) == *final(old(self).ifaces),
    {
        let state = self.ifaces.get_mut(self.index);
        state.dhcpv4_server = match config {
            Some(config) => Some(Server::new(config)),
            None => None,
        };
    }

    /// The DHCP server's lease table. Empty if the server is off.
    ///
    /// All entries are returned, whether their lease is running or already over.
    /// Check each entry's [`state`](DhcpServerLease::state) and
    /// [`expires_at`](DhcpServerLease::expires_at).
    pub fn dhcpv4_server_leases(&self) -> (leases: &[DhcpServerLease])
        requires
            self.wf(),
        ensures
            match self.spec_state()@.dhcpv4_server {
                Some(server) => lease_views(leases@) == server.leases,
                None => leases@.len() == 0,
            },
    {
        match &self.state().dhcpv4_server {
            Some(server) => server.leases(),
            None => &[],
        }
    }

    /// Remove the DHCP server lease of the given address, freeing it for other
    /// clients. Returns whether there was one.
    ///
    /// The client is not told: it keeps using the address until it next renews.
    pub fn remove_dhcpv4_server_lease(&mut self, address: Ipv4Address) -> (removed: bool)
        requires
            old(self).wf(),
        ensures
            match old(self).spec_state()@.dhcpv4_server {
                Some(server) => {
                    &&& removed == exists|i: int|
                        0 <= i < server.leases.len() && (#[trigger] server.leases[i]).address
                            == address
                    &&& final(self).becomes(
                        old(self),
                        (IfaceView {
                            dhcpv4_server: Some(
                                ServerView {
                                    leases: server.leases.filter(
                                        |lease: LeaseView| lease.address != address,
                                    ),
                                    ..server
                                },
                            ),
                            ..old(self).spec_state()@
                        }),
                        old(self).inner@,
                    )
                },
                None => !removed && final(self).becomes(
                    old(self),
                    old(self).spec_state()@,
                    old(self).inner@,
                ),
            },
            *final(final(self).inner) == *final(old(self).inner),
            *final(final(self).ifaces) == *final(old(self).ifaces),
    {
        let state = self.ifaces.get_mut(self.index);
        match &mut state.dhcpv4_server {
            Some(server) => server.remove_lease(address),
            None => false,
        }
    }
}

impl<'a, D: Driver> Iface<'a, D> {
    /// The interface's driver.
    pub fn driver_mut(&mut self) -> (driver: &mut D)
        requires
            old(self).wf(),
        ensures
            *driver == old(self).spec_state().driver,
            final(self).becomes(old(self), old(self).spec_state()@, old(self).inner@),
            final(self).spec_state().driver == *final(driver),
            *final(final(self).inner) == *final(old(self).inner),
            *final(final(self).ifaces) == *final(old(self).ifaces),
    {
        &mut self.ifaces.get_mut(self.index).driver
    }

    /// The link state reported by the device.
    pub fn link_state(&mut self) -> (state: LinkState)
        requires
            old(self).wf(),
        ensures
            final(self).becomes(
                old(self),
                old(self).spec_state()@.called(DriverCall::LinkState(state)),
                old(self).inner@,
            ),
            *final(final(self).inner) == *final(old(self).inner),
            *final(final(self).ifaces) == *final(old(self).ifaces),
    {
        let state = self.ifaces.get_mut(self.index);
        state.driver.link_state(&mut state.calls)
    }

    /// Poll the device for the timestamp of an already-transmitted packet, sent with
    /// [`PacketMeta::request_timestamp`](crate::driver::PacketMeta::request_timestamp) set.
    ///
    /// Returns `None` if no timestamp is available right now, which is also all a
    /// device without transmit timestamping support ever returns. Timestamps arrive
    /// an arbitrary time after the packet was sent, possibly out of order, and
    /// possibly never.
    pub fn poll_tx_timestamp(&mut self) -> (timestamp: Option<TxTimestamp>)
        requires
            old(self).wf(),
        ensures
            final(self).becomes(
                old(self),
                old(self).spec_state()@.called(DriverCall::TxTimestamp(timestamp)),
                old(self).inner@,
            ),
            *final(final(self).inner) == *final(old(self).inner),
            *final(final(self).ifaces) == *final(old(self).ifaces),
    {
        let state = self.ifaces.get_mut(self.index);
        state.driver.poll_tx_timestamp(&mut state.calls)
    }
}

/// Keeping the link-local addresses never shortens the list.
proof fn lemma_link_local_grows(addrs: Seq<IfaceAddr>, old: Seq<IfaceAddr>)
    ensures
        with_link_local(addrs, old).len() >= addrs.len(),
    decreases old.len(),
{
    if old.len() > 0 {
        lemma_link_local_grows(addrs, old.drop_last());
    }
}

/// The list grows with the number of addresses assigned.
proof fn lemma_assigned_grows(cidrs: Seq<IpCidr>, len: int)
    requires
        0 <= len <= cidrs.len(),
    ensures
        assigned_in_turn(cidrs.take(len)).len() <= assigned_in_turn(cidrs).len(),
    decreases cidrs.len() - len,
{
    if len < cidrs.len() {
        lemma_assigned_grows(cidrs, len + 1);
        assert(cidrs.take(len + 1).drop_last() =~= cidrs.take(len));
    } else {
        assert(cidrs.take(len) =~= cidrs);
    }
}

/// The list grows with the number of addresses looked at.
proof fn lemma_link_local_prefix(addrs: Seq<IfaceAddr>, old: Seq<IfaceAddr>, len: int)
    requires
        0 <= len <= old.len(),
    ensures
        with_link_local(addrs, old.take(len)).len() <= with_link_local(addrs, old).len(),
    decreases old.len() - len,
{
    if len < old.len() {
        lemma_link_local_prefix(addrs, old, len + 1);
        assert(old.take(len + 1).drop_last() =~= old.take(len));
    } else {
        assert(old.take(len) =~= old);
    }
}

/// Goes through the interfaces of a [`Stack`], returned by
/// [`Stack::ifaces`](crate::stack::Stack::ifaces).
///
/// Each item borrows the stack, so only one can exist at a time.
pub struct IfaceIter<'a, D> {
    pub stack: &'a mut Stack<D>,
    pub next: usize,
}

impl<'a, D> IfaceIter<'a, D> {
    /// Get the next interface, with its handle.
    ///
    /// Returns `None` when there are no more.
    pub fn next(&mut self) -> (item: Option<(IfaceHandle, Iface<'_, D>)>)
        requires
            old(self).stack.wf(),
        ensures
            match item {
                Some((handle, iface)) => {
                    &&& is_next_slot(
                        old(self).stack.ifaces@,
                        old(self).next as int,
                        handle.index as int,
                    )
                    &&& final(self).next == handle.index + 1
                    &&& iface.wf()
                    &&& iface.index == handle.index
                    &&& *iface.inner == old(self).stack.inner
                    &&& *iface.ifaces == old(self).stack.ifaces
                    &&& final(self).stack.inner == *final(iface.inner)
                    &&& final(self).stack.ifaces == *final(iface.ifaces)
                    &&& final(self).stack.sockets == old(self).stack.sockets
                },
                None => {
                    &&& no_next_slot(old(self).stack.ifaces@, old(self).next as int)
                    &&& *final(self).stack == *old(self).stack
                    &&& final(self).next == old(self).next
                },
            },
            *final(final(self).stack) == *final(old(self).stack),
    {
        match self.stack.ifaces.next_occupied(self.next) {
            Some(index) => {
                self.next = index + 1;
                let handle = IfaceHandle::new(index);
                Some((handle, self.stack.iface(handle)))
            },
            None => None,
        }
    }
}

} // verus!

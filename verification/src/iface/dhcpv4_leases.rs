//! The lease table of the DHCPv4 server.

use crate::config::DHCP_SERVER_LEASE_COUNT;
use crate::lists::{lemma_filter_of_map, lemma_position_is, lemma_position_none, position};
use crate::time::Instant;
use crate::wire::bytes::{put_slice, same_bytes};
use crate::wire::{EthernetAddress, Ipv4Address};
use vstd::prelude::*;

verus! {

/// A list of `heapless`, which holds up to `N` items in place.
#[verifier::external_type_specification]
#[verifier::external_body]
#[verifier::reject_recursive_types(T)]
pub struct ExHeaplessVec<T, const N: usize>(heapless::Vec<T, N>);

/// The state of one [`DhcpServerLease`].
#[derive(Clone, Copy, PartialEq, Eq, Structural, Debug)]
pub enum DhcpServerLeaseState {
    /// The address was offered and the client has not requested it yet.
    Offered,
    /// The client holds the address.
    Bound,
    /// The client released the address, or chose another server. Kept as a
    /// record so a returning client gets the same address.
    Released,
    /// The client reported the address as in use by someone else. The address
    /// is kept out of the pool until the hold expires.
    Declined,
}

/// What identifies a client: the client identifier option if it sent one, else
/// its hardware address (RFC 2131 section 4.2).
#[derive(Clone, Copy, Debug)]
pub enum ClientId<'a> {
    Id(&'a [u8]),
    Hw(EthernetAddress),
}

/// What identifies a client.
pub enum ClientIdView {
    Id(Seq<u8>),
    Hw(EthernetAddress),
}

impl<'a> View for ClientId<'a> {
    type V = ClientIdView;

    open spec fn view(&self) -> ClientIdView {
        match *self {
            ClientId::Id(bytes) => ClientIdView::Id(bytes@),
            ClientId::Hw(addr) => ClientIdView::Hw(addr),
        }
    }
}

/// One entry of the DHCP server's lease table.
///
/// Read them with [`Iface::dhcpv4_server_leases`](super::Iface::dhcpv4_server_leases).
#[derive(Debug)]
pub struct DhcpServerLease {
    address: Ipv4Address,
    hardware_addr: EthernetAddress,
    client_id: Option<Vec<u8>>,
    state: DhcpServerLeaseState,
    expires_at: Instant,
}

/// An entry of the lease table.
#[verifier::ext_equal]
pub struct LeaseView {
    pub address: Ipv4Address,
    pub hardware_addr: EthernetAddress,
    pub client_id: Option<Seq<u8>>,
    pub state: DhcpServerLeaseState,
    pub expires_at: Instant,
}

impl LeaseView {
    /// Whether the lease still holds its address.
    pub open spec fn active(self, now: Instant) -> bool {
        self.state != DhcpServerLeaseState::Released && self.expires_at.micros > now.micros
    }

    /// Whether the lease was made for this client.
    pub open spec fn matches(self, id: ClientIdView) -> bool {
        match id {
            ClientIdView::Id(bytes) => self.client_id == Some(bytes),
            ClientIdView::Hw(addr) => self.client_id is None && self.hardware_addr == addr,
        }
    }

    /// Whether the lease is this client's. A declined entry blocks an address and
    /// belongs to nobody.
    pub open spec fn belongs_to(self, id: ClientIdView) -> bool {
        self.state != DhcpServerLeaseState::Declined && self.matches(id)
    }

    /// Whether the lease keeps `addr` from being given to the client: it holds
    /// the address, and not for this client.
    pub open spec fn withholds(self, addr: Ipv4Address, id: ClientIdView, now: Instant) -> bool {
        self.address == addr && self.active(now) && (self.state == DhcpServerLeaseState::Declined
            || !self.matches(id))
    }

    /// Whether the lease is kept when records of `addr` are dropped, except those
    /// of the client `id`.
    pub open spec fn outlives(self, addr: Ipv4Address, id: Option<ClientIdView>) -> bool {
        self.address != addr || (id matches Some(id) && self.matches(id))
    }

    /// A lease for a client that has no address yet.
    pub open spec fn fresh(id: ClientIdView, hardware_addr: EthernetAddress) -> LeaseView {
        LeaseView {
            address: Ipv4Address::any(),
            hardware_addr,
            client_id: match id {
                ClientIdView::Id(bytes) => if bytes.len() == 0 {
                    None
                } else {
                    Some(bytes)
                },
                ClientIdView::Hw(_) => None,
            },
            state: DhcpServerLeaseState::Released,
            expires_at: Instant { micros: 0 },
        }
    }
}

impl View for DhcpServerLease {
    type V = LeaseView;

    closed spec fn view(&self) -> LeaseView {
        LeaseView {
            address: self.address,
            hardware_addr: self.hardware_addr,
            client_id: match self.client_id {
                Some(bytes) => Some(bytes@),
                None => None,
            },
            state: self.state,
            expires_at: self.expires_at,
        }
    }
}

impl Clone for DhcpServerLease {
    fn clone(&self) -> (lease: DhcpServerLease)
        ensures
            lease@ == self@,
    {
        let client_id = match &self.client_id {
            Some(bytes) => {
                let mut copy: Vec<u8> = Vec::new();
                put_slice(&mut copy, bytes.as_slice());
                assert(copy@ =~= bytes@);
                Some(copy)
            },
            None => None,
        };
        DhcpServerLease {
            address: self.address,
            hardware_addr: self.hardware_addr,
            client_id,
            state: self.state,
            expires_at: self.expires_at,
        }
    }
}

impl DhcpServerLease {
    /// A lease for a client that has no address yet.
    pub fn new(id: &ClientId<'_>, hardware_addr: EthernetAddress) -> (lease: DhcpServerLease)
        ensures
            lease@ == LeaseView::fresh(id@, hardware_addr),
    {
        let client_id = match *id {
            ClientId::Id(bytes) => if bytes.len() == 0 {
                None
            } else {
                let mut copy: Vec<u8> = Vec::new();
                put_slice(&mut copy, bytes);
                assert(copy@ =~= bytes@);
                Some(copy)
            },
            ClientId::Hw(_) => None,
        };
        DhcpServerLease {
            address: Ipv4Address::unspecified(),
            hardware_addr,
            client_id,
            state: DhcpServerLeaseState::Released,
            expires_at: Instant::zero(),
        }
    }

    /// The leased address.
    pub fn address(&self) -> (addr: Ipv4Address)
        ensures
            addr == self@.address,
    {
        self.address
    }

    /// The client's hardware address, from its latest message.
    pub fn hardware_addr(&self) -> (addr: EthernetAddress)
        ensures
            addr == self@.hardware_addr,
    {
        self.hardware_addr
    }

    /// The client identifier the client sent, or `None` if it sent none and is
    /// identified by its hardware address.
    pub fn client_id(&self) -> (id: Option<&[u8]>)
        ensures
            id is Some <==> self@.client_id is Some,
            id matches Some(bytes) ==> bytes@ == self@.client_id->0,
    {
        match &self.client_id {
            Some(bytes) => Some(bytes.as_slice()),
            None => None,
        }
    }

    /// The state of the lease.
    pub fn state(&self) -> (state: DhcpServerLeaseState)
        ensures
            state == self@.state,
    {
        self.state
    }

    /// When the lease stops holding its address.
    ///
    /// For an offered lease this is when the unanswered offer lapses, for a
    /// bound one the end of the lease, and for a declined one the end of the
    /// hold that keeps the address out of the pool. A released lease is already
    /// past it. Past this time the entry is only a record: the address is free,
    /// and the entry makes a returning client get it again.
    pub fn expires_at(&self) -> (at: Instant)
        ensures
            at == self@.expires_at,
    {
        self.expires_at
    }

    /// Whether the lease still holds its address.
    pub fn is_active(&self, now: Instant) -> (active: bool)
        ensures
            active == self@.active(now),
    {
        match self.state {
            DhcpServerLeaseState::Released => false,
            DhcpServerLeaseState::Offered
            | DhcpServerLeaseState::Bound
            | DhcpServerLeaseState::Declined => self.expires_at.micros > now.micros,
        }
    }

    /// Whether the lease was made for this client.
    pub fn matches_client(&self, id: &ClientId<'_>) -> (matches: bool)
        ensures
            matches == self@.matches(id@),
    {
        match id {
            ClientId::Id(bytes) => match self.client_id() {
                Some(own) => same_bytes(own, bytes),
                None => false,
            },
            ClientId::Hw(hw) => self.client_id.is_none() && self.hardware_addr == *hw,
        }
    }

    /// Whether the lease is kept when records of `addr` are dropped, except those
    /// of the client `id`.
    pub fn outlives(&self, addr: Ipv4Address, id: Option<ClientId<'_>>) -> (kept: bool)
        ensures
            kept == self@.outlives(addr, viewed(id)),
    {
        if self.address != addr {
            return true;
        }
        match id {
            Some(id) => self.matches_client(&id),
            None => false,
        }
    }
}

/// What identifies a client, if there is one.
pub open spec fn viewed(id: Option<ClientId<'_>>) -> Option<ClientIdView> {
    match id {
        Some(id) => Some(id@),
        None => None,
    }
}

/// The leases in a list of `heapless`, in order.
pub uninterp spec fn listed_leases(
    list: heapless::Vec<DhcpServerLease, DHCP_SERVER_LEASE_COUNT>,
) -> Seq<DhcpServerLease>;

/// An empty list.
///
/// Calls `heapless::Vec::new`, which makes a list with nothing in it.
#[verifier::external_body]
fn new_list() -> (list: heapless::Vec<DhcpServerLease, DHCP_SERVER_LEASE_COUNT>)
    ensures
        listed_leases(list) == Seq::<DhcpServerLease>::empty(),
{
    heapless::Vec::new()
}

/// Append a lease.
///
/// Calls `heapless::Vec::push`, which appends the item if the list holds fewer
/// than its capacity, and else hands the item back and leaves the list alone.
#[verifier::external_body]
fn push_to_list(
    list: &mut heapless::Vec<DhcpServerLease, DHCP_SERVER_LEASE_COUNT>,
    lease: DhcpServerLease,
) -> (result: Result<(), DhcpServerLease>)
    ensures
        listed_leases(*old(list)).len() < DHCP_SERVER_LEASE_COUNT ==> (result is Ok
            && listed_leases(*final(list)) == listed_leases(*old(list)).push(lease)),
        listed_leases(*old(list)).len() >= DHCP_SERVER_LEASE_COUNT ==> ((result matches Err(back)
            && back == lease) && listed_leases(*final(list)) == listed_leases(*old(list))),
{
    list.push(lease)
}

/// The leases as a slice.
///
/// Calls `heapless::Vec::as_slice`, which gives the items in order. There are
/// never more than the capacity.
#[verifier::external_body]
fn list_slice(list: &heapless::Vec<DhcpServerLease, DHCP_SERVER_LEASE_COUNT>) -> (leases:
    &[DhcpServerLease])
    ensures
        leases@ == listed_leases(*list),
        leases@.len() <= DHCP_SERVER_LEASE_COUNT,
{
    list.as_slice()
}

/// The leases as a slice to be changed in place.
///
/// Calls `heapless::Vec::as_mut_slice`, which gives the items in order. What is
/// written through the slice is in the list afterwards.
#[verifier::external_body]
fn list_slice_mut(
    list: &mut heapless::Vec<DhcpServerLease, DHCP_SERVER_LEASE_COUNT>,
) -> (leases: &mut [DhcpServerLease])
    ensures
        leases@ == listed_leases(*old(list)),
        listed_leases(*final(list)) == final(leases)@,
{
    list.as_mut_slice()
}

/// Drop the records of `addr`, except those of the client `id`.
///
/// Calls `heapless::Vec::retain`, which keeps the items its argument says to keep,
/// in order, and drops the others.
#[verifier::external_body]
fn retain_in_list(
    list: &mut heapless::Vec<DhcpServerLease, DHCP_SERVER_LEASE_COUNT>,
    addr: Ipv4Address,
    id: Option<ClientId<'_>>,
)
    ensures
        listed_leases(*final(list)) == listed_leases(*old(list)).filter(
            |lease: DhcpServerLease| lease@.outlives(addr, viewed(id)),
        ),
{
    list.retain(|lease| lease.outlives(addr, id))
}

/// The lease table.
#[derive(Debug)]
pub struct LeaseTable {
    list: heapless::Vec<DhcpServerLease, DHCP_SERVER_LEASE_COUNT>,
}

/// What a list of leases holds.
pub open spec fn lease_views(leases: Seq<DhcpServerLease>) -> Seq<LeaseView> {
    leases.map_values(|lease: DhcpServerLease| lease@)
}

impl View for LeaseTable {
    type V = Seq<LeaseView>;

    closed spec fn view(&self) -> Seq<LeaseView> {
        lease_views(listed_leases(self.list))
    }
}

/// The lease of this client, if any.
pub open spec fn find_by_client(t: Seq<LeaseView>, id: ClientIdView) -> Option<int> {
    position(t, |lease: LeaseView| lease.belongs_to(id))
}

/// Whether `addr` can be given to the client `id`: no active lease holds it,
/// other than the client's own.
pub open spec fn available_for(
    t: Seq<LeaseView>,
    addr: Ipv4Address,
    id: ClientIdView,
    now: Instant,
) -> bool {
    forall|i: int| 0 <= i < t.len() ==> !(#[trigger] t[i]).withholds(addr, id, now)
}

/// Whether the lease at `i` is the one to be reclaimed first: of those that hold
/// no address, the first one of the longest expired.
pub open spec fn is_longest_expired(t: Seq<LeaseView>, now: Instant, i: int) -> bool {
    &&& 0 <= i < t.len()
    &&& !t[i].active(now)
    &&& forall|j: int|
        0 <= j < t.len() && !(#[trigger] t[j]).active(now) ==> t[i].expires_at.micros
            <= t[j].expires_at.micros
    &&& forall|j: int|
        0 <= j < i && !(#[trigger] t[j]).active(now) ==> t[i].expires_at.micros
            < t[j].expires_at.micros
}

/// The lease to be reclaimed first, if any can be.
pub open spec fn longest_expired(t: Seq<LeaseView>, now: Instant) -> Option<int> {
    if exists|i: int| is_longest_expired(t, now, i) {
        Some(choose|i: int| is_longest_expired(t, now, i))
    } else {
        None
    }
}

/// Only one lease is the one to be reclaimed first.
pub proof fn lemma_longest_expired(t: Seq<LeaseView>, now: Instant, i: int)
    requires
        is_longest_expired(t, now, i),
    ensures
        longest_expired(t, now) == Some(i),
{
    let found = choose|i: int| is_longest_expired(t, now, i);
    if found < i {
        assert(!t[found].active(now));
    } else if i < found {
        assert(!t[i].active(now));
    }
}

impl LeaseTable {
    /// An empty table.
    pub fn new() -> (table: LeaseTable)
        ensures
            table@ == Seq::<LeaseView>::empty(),
    {
        let table = LeaseTable { list: new_list() };
        assert(table@ =~= Seq::<LeaseView>::empty());
        table
    }

    /// The leases, in order.
    pub fn as_slice(&self) -> (leases: &[DhcpServerLease])
        ensures
            lease_views(leases@) == self@,
            leases@.len() <= DHCP_SERVER_LEASE_COUNT,
    {
        list_slice(&self.list)
    }

    /// How many leases there are.
    pub fn len(&self) -> (len: usize)
        ensures
            len == self@.len(),
            len <= DHCP_SERVER_LEASE_COUNT,
    {
        self.as_slice().len()
    }

    /// The lease at `index`.
    pub fn get(&self, index: usize) -> (lease: &DhcpServerLease)
        requires
            index < self@.len(),
        ensures
            lease@ == self@[index as int],
    {
        let leases = list_slice(&self.list);
        assert(lease_views(leases@)[index as int] == leases@[index as int]@);
        &leases[index]
    }

    /// Append a lease, or hand it back if the table is full.
    pub fn push(&mut self, lease: DhcpServerLease) -> (result: Result<(), DhcpServerLease>)
        ensures
            old(self)@.len() < DHCP_SERVER_LEASE_COUNT ==> result is Ok && final(self)@ == old(
                self,
            )@.push(lease@),
            old(self)@.len() >= DHCP_SERVER_LEASE_COUNT ==> (result matches Err(back) && back
                == lease) && final(self)@ == old(self)@,
    {
        let result = push_to_list(&mut self.list, lease);
        proof {
            if old(self)@.len() < DHCP_SERVER_LEASE_COUNT {
                assert(self@ =~= old(self)@.push(lease@));
            }
        }
        result
    }

    /// Replace the lease at `index`.
    pub fn replace(&mut self, index: usize, lease: DhcpServerLease)
        requires
            index < old(self)@.len(),
        ensures
            final(self)@ == old(self)@.update(index as int, lease@),
    {
        let leases = list_slice_mut(&mut self.list);
        leases[index] = lease;
        assert(self@ =~= old(self)@.update(index as int, lease@));
    }

    /// Note the hardware address of a client.
    pub fn set_hardware_addr(&mut self, index: usize, addr: EthernetAddress)
        requires
            index < old(self)@.len(),
        ensures
            final(self)@ == old(self)@.update(
                index as int,
                LeaseView { hardware_addr: addr, ..old(self)@[index as int] },
            ),
    {
        let leases = list_slice_mut(&mut self.list);
        leases[index].hardware_addr = addr;
        assert(self@ =~= old(self)@.update(
            index as int,
            LeaseView { hardware_addr: addr, ..old(self)@[index as int] },
        ));
    }

    /// Move a lease to another state.
    pub fn set_state(&mut self, index: usize, state: DhcpServerLeaseState, expires_at: Instant)
        requires
            index < old(self)@.len(),
        ensures
            final(self)@ == old(self)@.update(
                index as int,
                LeaseView { state, expires_at, ..old(self)@[index as int] },
            ),
    {
        let leases = list_slice_mut(&mut self.list);
        leases[index].state = state;
        leases[index].expires_at = expires_at;
        assert(self@ =~= old(self)@.update(
            index as int,
            LeaseView { state, expires_at, ..old(self)@[index as int] },
        ));
    }

    /// Give a lease an address.
    pub fn assign(
        &mut self,
        index: usize,
        address: Ipv4Address,
        state: DhcpServerLeaseState,
        expires_at: Instant,
    )
        requires
            index < old(self)@.len(),
        ensures
            final(self)@ == old(self)@.update(
                index as int,
                LeaseView { address, state, expires_at, ..old(self)@[index as int] },
            ),
    {
        let leases = list_slice_mut(&mut self.list);
        leases[index].address = address;
        leases[index].state = state;
        leases[index].expires_at = expires_at;
        assert(self@ =~= old(self)@.update(
            index as int,
            LeaseView { address, state, expires_at, ..old(self)@[index as int] },
        ));
    }

    /// Drop the records of `addr`, except those of the client `id`.
    pub fn drop_records(&mut self, addr: Ipv4Address, id: Option<ClientId<'_>>)
        ensures
            final(self)@ == old(self)@.filter(
                |lease: LeaseView| lease.outlives(addr, viewed(id)),
            ),
    {
        retain_in_list(&mut self.list, addr, id);
        proof {
            lemma_filter_of_map(
                listed_leases(old(self).list),
                |lease: DhcpServerLease| lease@,
                |lease: DhcpServerLease| lease@.outlives(addr, viewed(id)),
                |lease: LeaseView| lease.outlives(addr, viewed(id)),
            );
        }
    }

    /// The lease of this client, if any. Declined entries don't count: they
    /// block an address, they don't belong to anyone.
    pub fn find_by_client(&self, id: &ClientId<'_>) -> (index: Option<usize>)
        ensures
            index is Some <==> find_by_client(self@, id@) is Some,
            index matches Some(i) ==> find_by_client(self@, id@) == Some(i as int) && i
                < self@.len(),
    {
        let ghost owned = |lease: LeaseView| lease.belongs_to(id@);
        let mut index: usize = 0;
        let len: usize = self.len();
        while index < len
            invariant
                len == self@.len(),
                index <= len,
                owned == (|lease: LeaseView| lease.belongs_to(id@)),
                forall|i: int| 0 <= i < index ==> !owned(#[trigger] self@[i]),
            decreases len - index,
        {
            let lease = self.get(index);
            if lease.state() != DhcpServerLeaseState::Declined && lease.matches_client(id) {
                proof {
                    lemma_position_is(self@, owned, index as int);
                }
                return Some(index);
            }
            index += 1;
        }
        proof {
            lemma_position_none(self@, owned);
        }
        None
    }

    /// Whether `addr` can be given to the client `id`: no active lease holds it,
    /// other than the client's own.
    pub fn available_for(&self, addr: Ipv4Address, id: &ClientId<'_>, now: Instant) -> (available:
        bool)
        ensures
            available == available_for(self@, addr, id@, now),
    {
        let mut index: usize = 0;
        let len: usize = self.len();
        while index < len
            invariant
                len == self@.len(),
                index <= len,
                forall|i: int| 0 <= i < index ==> !(#[trigger] self@[i]).withholds(addr, id@, now),
            decreases len - index,
        {
            let lease = self.get(index);
            if lease.address() == addr && lease.is_active(now) && (lease.state()
                == DhcpServerLeaseState::Declined || !lease.matches_client(id)) {
                assert(self@[index as int].withholds(addr, id@, now));
                return false;
            }
            index += 1;
        }
        true
    }

    /// The longest-expired record, if there is a lease that holds no address.
    pub fn longest_expired(&self, now: Instant) -> (index: Option<usize>)
        ensures
            index is Some <==> longest_expired(self@, now) is Some,
            index matches Some(i) ==> longest_expired(self@, now) == Some(i as int) && i
                < self@.len(),
    {
        let mut best: Option<usize> = None;
        let mut index: usize = 0;
        let len: usize = self.len();
        while index < len
            invariant
                len == self@.len(),
                index <= len,
                best matches Some(b) ==> b < index && is_longest_expired(
                    self@.take(index as int),
                    now,
                    b as int,
                ),
                best is None ==> forall|i: int| 0 <= i < index ==> (#[trigger] self@[i]).active(now),
            decreases len - index,
        {
            let lease = self.get(index);
            if !lease.is_active(now) {
                let replace: bool = match best {
                    Some(b) => lease.expires_at().micros < self.get(b).expires_at().micros,
                    None => true,
                };
                if replace {
                    best = Some(index);
                }
            }
            proof {
                let before = self@.take(index as int);
                let after = self@.take(index + 1);
                assert(forall|i: int| 0 <= i < index ==> after[i] == before[i]);
                assert(after[index as int] == self@[index as int]);
            }
            index += 1;
        }
        assert(self@.take(index as int) =~= self@);
        proof {
            match best {
                Some(b) => {
                    lemma_longest_expired(self@, now, b as int);
                },
                None => {},
            }
        }
        best
    }
}

} // verus!

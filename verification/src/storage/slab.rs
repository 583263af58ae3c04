//! Reusable slots addressed by plain indexes.

use super::Full;
use vstd::prelude::*;

verus! {

/// `N` reusable slots addressed by plain indexes.
///
/// The view is the map from the index of each occupied slot to its item.
#[derive(Debug)]
pub struct Slab<T, const N: usize> {
    items: Vec<Option<T>>,
}

impl<T, const N: usize> View for Slab<T, N> {
    type V = Map<int, T>;

    closed spec fn view(&self) -> Map<int, T> {
        Map::new(
            |index: int| 0 <= index < N && index < self.items@.len() && self.items@[index] is Some,
            |index: int| self.items@[index]->0,
        )
    }
}

/// `listed` are the items of `slots` with their indexes, each once, in the order
/// of the indexes.
pub open spec fn lists_in_order<T>(listed: Seq<(usize, T)>, slots: Map<int, T>) -> bool {
    &&& forall|k: int|
        0 <= k < listed.len() ==> slots.contains_pair((#[trigger] listed[k]).0 as int, listed[k].1)
    &&& forall|j: int, k: int|
        0 <= j < k < listed.len() ==> (#[trigger] listed[j]).0 < (#[trigger] listed[k]).0
    &&& forall|index: int| #[trigger]
        slots.contains_key(index) ==> exists|k: int|
            0 <= k < listed.len() && (#[trigger] listed[k]).0 == index
}

/// Whether `index` is the first occupied slot whose item satisfies `p`.
pub open spec fn is_first_slot<T>(slots: Map<int, T>, p: spec_fn(T) -> bool, index: int) -> bool {
    &&& slots.contains_key(index)
    &&& 0 <= index
    &&& p(slots[index])
    &&& forall|below: int|
        0 <= below < index && #[trigger] slots.contains_key(below) ==> !p(slots[below])
}

/// The first occupied slot whose item satisfies `p`, if there is one.
pub open spec fn first_slot<T>(slots: Map<int, T>, p: spec_fn(T) -> bool) -> Option<int> {
    if exists|index: int| is_first_slot(slots, p, index) {
        Some(choose|index: int| is_first_slot(slots, p, index))
    } else {
        None
    }
}

/// Only one slot is the first one.
pub proof fn lemma_first_slot<T>(slots: Map<int, T>, p: spec_fn(T) -> bool, index: int)
    requires
        is_first_slot(slots, p, index),
    ensures
        first_slot(slots, p) == Some(index),
{
    let found = choose|index: int| is_first_slot(slots, p, index);
    assert(slots.contains_key(found) && slots.contains_key(index));
}

/// Where no item satisfies `p`, there is no first one.
pub proof fn lemma_no_first_slot<T>(slots: Map<int, T>, p: spec_fn(T) -> bool)
    requires
        forall|index: int|
            0 <= index && #[trigger] slots.contains_key(index) ==> !p(slots[index]),
    ensures
        first_slot(slots, p) is None,
{
}

/// What is known of the first slot.
pub proof fn lemma_first_slot_known<T>(slots: Map<int, T>, p: spec_fn(T) -> bool)
    ensures
        first_slot(slots, p) matches Some(index) ==> is_first_slot(slots, p, index),
{
}

/// Where an item satisfies `p`, there is a first one, no later than that.
pub proof fn lemma_first_slot_found<T>(slots: Map<int, T>, p: spec_fn(T) -> bool, index: int)
    requires
        0 <= index,
        slots.contains_key(index),
        p(slots[index]),
    ensures
        first_slot(slots, p) matches Some(first) && first <= index && is_first_slot(
            slots,
            p,
            first,
        ),
    decreases index,
{
    if exists|below: int|
        0 <= below < index && #[trigger] slots.contains_key(below) && p(slots[below]) {
        let below = choose|below: int|
            0 <= below < index && #[trigger] slots.contains_key(below) && p(slots[below]);
        lemma_first_slot_found(slots, p, below);
    } else {
        lemma_first_slot(slots, p, index);
    }
}

/// Whether `index` is the first occupied slot at or after `from`.
pub open spec fn is_next_slot<T>(slots: Map<int, T>, from: int, index: int) -> bool {
    &&& from <= index
    &&& slots.contains_key(index)
    &&& forall|i: int| from <= i < index ==> !#[trigger] slots.contains_key(i)
}

/// Whether no slot at or after `from` is occupied.
pub open spec fn no_next_slot<T>(slots: Map<int, T>, from: int) -> bool {
    forall|i: int| from <= i ==> !#[trigger] slots.contains_key(i)
}

impl<T, const N: usize> Slab<T, N> {
    /// Whether every slot is occupied.
    pub open spec fn spec_full(&self) -> bool {
        forall|index: int| 0 <= index < N ==> #[trigger] self@.contains_key(index)
    }

    /// Whether `index` is the first free slot.
    pub open spec fn first_free(&self, index: int) -> bool {
        &&& 0 <= index < N
        &&& !self@.contains_key(index)
        &&& forall|below: int| 0 <= below < index ==> #[trigger] self@.contains_key(below)
    }

    /// A slab with every slot free.
    pub fn new() -> (slab: Self)
        ensures
            slab@ == Map::<int, T>::empty(),
    {
        let slab = Slab { items: Vec::new() };
        assert(slab@ =~= Map::<int, T>::empty());
        slab
    }

    /// Add an item, returning its index. Free slots are reused, the first one
    /// first.
    ///
    /// The item is built by calling `f` with the index it is going to get, so
    /// that items can store their own handle. `f` is not called if there is no
    /// room.
    pub fn add_with<F: FnOnce(usize) -> T>(&mut self, f: F) -> (result: Result<usize, Full>)
        requires
            forall|index: usize| index < N ==> #[trigger] f.requires((index,)),
        ensures
            result is Err <==> old(self).spec_full(),
            result is Err ==> final(self)@ == old(self)@,
            result matches Ok(index) ==> {
                &&& old(self).first_free(index as int)
                &&& final(self)@.contains_key(index as int)
                &&& f.ensures((index,), final(self)@[index as int])
                &&& final(self)@ == old(self)@.insert(index as int, final(self)@[index as int])
            },
    {
        let mut index: usize = 0;
        while index < self.items.len() && index < N && self.items[index].is_some()
            invariant
                self@ == old(self)@,
                index <= self.items@.len(),
                index <= N,
                forall|below: int| 0 <= below < index ==> #[trigger] self@.contains_key(below),
            decreases self.items@.len() - index,
        {
            assert(self@.contains_key(index as int));
            index += 1;
        }
        if index >= N {
            assert(old(self).spec_full());
            return Err(Full);
        }
        assert(!old(self)@.contains_key(index as int));
        if index == self.items.len() {
            self.items.push(None);
        }
        self.items[index] = Some(f(index));
        assert(self@ =~= old(self)@.insert(index as int, self@[index as int]));
        Ok(index)
    }

    /// Whether `add_with` would fail.
    pub fn is_full(&self) -> (full: bool)
        ensures
            full == self.spec_full(),
    {
        let mut index: usize = 0;
        while index < N
            invariant
                index <= N,
                forall|below: int| 0 <= below < index ==> #[trigger] self@.contains_key(below),
            decreases N - index,
        {
            if index >= self.items.len() || self.items[index].is_none() {
                assert(!self@.contains_key(index as int));
                return false;
            }
            assert(self@.contains_key(index as int));
            index += 1;
        }
        true
    }

    /// Whether the slot at `index` is occupied.
    pub fn contains(&self, index: usize) -> (occupied: bool)
        ensures
            occupied == self@.contains_key(index as int),
    {
        index < N && index < self.items.len() && self.items[index].is_some()
    }

    /// Remove the item at `index`, dropping it. The slab is not full then.
    pub fn remove(&mut self, index: usize)
        requires
            old(self)@.contains_key(index as int),
        ensures
            final(self)@ == old(self)@.remove(index as int),
            !final(self).spec_full(),
    {
        let _ = self.take(index);
    }

    /// Take the item at `index` out of the slab. The slab is not full then.
    pub fn take(&mut self, index: usize) -> (item: T)
        requires
            old(self)@.contains_key(index as int),
        ensures
            item == old(self)@[index as int],
            final(self)@ == old(self)@.remove(index as int),
            !final(self).spec_full(),
    {
        let taken = self.items[index].take();
        assert(self@ =~= old(self)@.remove(index as int));
        assert(!self@.contains_key(index as int));
        match taken {
            Some(item) => item,
            None => vstd::pervasive::unreached(),
        }
    }

    /// Get a reference to the item at `index`.
    pub fn get(&self, index: usize) -> (item: &T)
        requires
            self@.contains_key(index as int),
        ensures
            *item == self@[index as int],
    {
        match &self.items[index] {
            Some(item) => item,
            None => vstd::pervasive::unreached(),
        }
    }

    /// Get a mutable reference to the item at `index`.
    pub fn get_mut(&mut self, index: usize) -> (item: &mut T)
        requires
            old(self)@.contains_key(index as int),
        ensures
            *item == old(self)@[index as int],
            final(self)@ == old(self)@.insert(index as int, *final(item)),
    {
        match &mut self.items[index] {
            Some(item) => item,
            None => vstd::pervasive::unreached(),
        }
    }

    /// Index of the first occupied slot at or after `from`, if any.
    pub fn next_occupied(&self, from: usize) -> (next: Option<usize>)
        ensures
            match next {
                Some(index) => index < usize::MAX && is_next_slot(
                    self@,
                    from as int,
                    index as int,
                ),
                None => no_next_slot(self@, from as int),
            },
            forall|i: int| #[trigger] self@.contains_key(i) ==> 0 <= i < N,
    {
        let mut index: usize = from;
        while index < N && index < self.items.len()
            invariant
                from <= index,
                forall|i: int| from <= i < index ==> !#[trigger] self@.contains_key(i),
            decreases self.items@.len() - index,
        {
            if self.items[index].is_some() {
                return Some(index);
            }
            index += 1;
        }
        None
    }

    /// All occupied slots, with their indexes.
    pub fn iter(&self) -> (listed: Vec<(usize, &T)>)
        ensures
            lists_in_order(listed@.map_values(|entry: (usize, &T)| (entry.0, *entry.1)), self@),
    {
        let mut listed: Vec<(usize, &T)> = Vec::new();
        let ghost plain = |entry: (usize, &T)| (entry.0, *entry.1);
        let mut index: usize = 0;
        while index < N && index < self.items.len()
            invariant
                index <= self.items@.len(),
                plain == (|entry: (usize, &T)| (entry.0, *entry.1)),
                forall|k: int|
                    0 <= k < listed@.len() ==> (#[trigger] listed@[k]).0 < index
                        && self@.contains_pair(listed@[k].0 as int, *listed@[k].1),
                forall|j: int, k: int|
                    0 <= j < k < listed@.len() ==> (#[trigger] listed@[j]).0 < (
                    #[trigger] listed@[k]).0,
                forall|i: int|
                    0 <= i < index && #[trigger] self@.contains_key(i) ==> exists|k: int|
                        0 <= k < listed@.len() && (#[trigger] listed@[k]).0 == i,
            decreases self.items@.len() - index,
        {
            let ghost before = listed@;
            match &self.items[index] {
                Some(item) => {
                    listed.push((index, item));
                    assert(listed@[before.len() as int].0 == index);
                },
                None => {
                    assert(!self@.contains_key(index as int));
                },
            }
            assert forall|i: int| 0 <= i < index + 1 && #[trigger] self@.contains_key(i) implies exists|
                k: int,
            | 0 <= k < listed@.len() && (#[trigger] listed@[k]).0 == i by {
                if i < index {
                    let k = choose|k: int| 0 <= k < before.len() && (#[trigger] before[k]).0 == i;
                    assert(listed@[k] == before[k]);
                }
            }
            index += 1;
        }
        proof {
            let seen = listed@.map_values(plain);
            assert forall|i: int| #[trigger] self@.contains_key(i) implies exists|k: int|
                0 <= k < seen.len() && (#[trigger] seen[k]).0 == i by {
                let k = choose|k: int| 0 <= k < listed@.len() && (#[trigger] listed@[k]).0 == i;
                assert(seen[k].0 == i);
            }
        }
        listed
    }

    /// All occupied slots, with their indexes, to be changed.
    pub fn iter_mut(&mut self) -> (listed: Vec<(usize, &mut T)>)
        ensures
            lists_in_order(
                listed@.map_values(|entry: (usize, &mut T)| (entry.0, *entry.1)),
                old(self)@,
            ),
            final(self)@.dom() == old(self)@.dom(),
            forall|k: int|
                0 <= k < listed@.len() ==> final(self)@[(#[trigger] listed@[k]).0 as int]
                    == *final(listed@[k].1),
    {
        let ghost slots = self@;
        let ghost items = self.items@;
        let len: usize = if self.items.len() < N {
            self.items.len()
        } else {
            N
        };
        let (front, _) = self.items.as_mut_slice().split_at_mut(len);
        let ghost front_items = front@;
        assert(forall|i: int| 0 <= i < len ==> #[trigger] front_items[i] == items[i]);
        let listed = occupied_mut(front, 0);
        proof {
            let seen = listed@.map_values(|entry: (usize, &mut T)| (entry.0, *entry.1));
            assert forall|k: int| 0 <= k < seen.len() implies slots.contains_pair(
                (#[trigger] seen[k]).0 as int,
                seen[k].1,
            ) by {
                let entry = listed@[k];
                assert(front_items[entry.0 as int] == Some(*entry.1));
            }
            assert forall|i: int| #[trigger] slots.contains_key(i) implies exists|k: int|
                0 <= k < seen.len() && (#[trigger] seen[k]).0 == i by {
                assert(front_items[i] is Some);
                let k = choose|k: int| 0 <= k < listed@.len() && (#[trigger] listed@[k]).0 == i;
                assert(seen[k].0 == i);
            }
        }
        listed
    }
}

/// The items of the occupied slots, to be changed, with their indexes. The first slot
/// is the one at `first`.
fn occupied_mut<T>(items: &mut [Option<T>], first: usize) -> (listed: Vec<(usize, &mut T)>)
    requires
        first + old(items)@.len() <= usize::MAX,
    ensures
        final(items)@.len() == old(items)@.len(),
        forall|k: int|
            0 <= k < listed@.len() ==> {
                let index = (#[trigger] listed@[k]).0 - first;
                &&& 0 <= index < old(items)@.len()
                &&& old(items)@[index] == Some(*listed@[k].1)
                &&& final(items)@[index] == Some(*final(listed@[k].1))
            },
        forall|j: int, k: int|
            0 <= j < k < listed@.len() ==> (#[trigger] listed@[j]).0 < (#[trigger] listed@[k]).0,
        forall|i: int|
            0 <= i < old(items)@.len() && old(items)@[i] is Some ==> exists|k: int|
                0 <= k < listed@.len() && (#[trigger] listed@[k]).0 == first + i,
        forall|i: int|
            0 <= i < old(items)@.len() && old(items)@[i] is None
                ==> #[trigger] final(items)@[i] is None,
    decreases old(items)@.len(),
{
    let len: usize = items.len();
    if len == 0 {
        return Vec::new();
    }
    let ghost before = items@;
    let (front, back) = items.split_at_mut(len - 1);
    let ghost front_before = front@;
    let mut listed = occupied_mut(front, first);
    let ghost earlier = listed@;
    match &mut back[0] {
        Some(item) => {
            listed.push((first + (len - 1), item));
        },
        None => {},
    }
    proof {
        assert forall|i: int| 0 <= i < before.len() && before[i] is Some implies exists|k: int|
            0 <= k < listed@.len() && (#[trigger] listed@[k]).0 == first + i by {
            if i < len - 1 {
                assert(front_before[i] == before[i]);
                let k = choose|k: int|
                    0 <= k < earlier.len() && (#[trigger] earlier[k]).0 == first + i;
                assert(listed@[k] == earlier[k]);
            } else {
                assert(listed@[earlier.len() as int].0 == first + i);
            }
        }
    }
    listed
}

impl<T, const N: usize> Default for Slab<T, N> {
    fn default() -> (slab: Self)
        ensures
            slab@ == Map::<int, T>::empty(),
    {
        Self::new()
    }
}

/// There is a first free slot if and only if the slab is not full.
pub proof fn slab_has_room_unless_full<T, const N: usize>(slab: &Slab<T, N>)
    ensures
        slab.spec_full() <==> forall|index: int| !#[trigger] slab.first_free(index),
{
    if !slab.spec_full() {
        let free = choose|index: int| 0 <= index < N && !#[trigger] slab@.contains_key(index);
        lemma_first_free(slab, free);
    }
}

/// Where a slot is free, there is a first free one.
proof fn lemma_first_free<T, const N: usize>(slab: &Slab<T, N>, free: int)
    requires
        0 <= free < N,
        !slab@.contains_key(free),
    ensures
        exists|index: int| #[trigger] slab.first_free(index),
    decreases free,
{
    if exists|below: int| 0 <= below < free && !#[trigger] slab@.contains_key(below) {
        let below = choose|below: int| 0 <= below < free && !#[trigger] slab@.contains_key(below);
        lemma_first_free(slab, below);
    } else {
        assert(slab.first_free(free));
    }
}

/// Only the first `N` slots are ever occupied.
pub proof fn occupied_slots_are_below_the_capacity<T, const N: usize>(slab: &Slab<T, N>, index: int)
    requires
        slab@.contains_key(index),
    ensures
        0 <= index < N,
{
}

/// A slab that an item was removed from is not full.
pub proof fn slab_is_not_full_after_a_removal<T, const N: usize>(
    before: &Slab<T, N>,
    after: &Slab<T, N>,
    index: int,
)
    requires
        before@.contains_key(index),
        after@ == before@.remove(index),
    ensures
        !after.spec_full(),
{
    assert(!after@.contains_key(index));
}

/// A slot that is freed is the next one to be used, if all those below it are
/// occupied.
pub proof fn freed_slot_is_reused<T, const N: usize>(
    before: &Slab<T, N>,
    after: &Slab<T, N>,
    index: int,
)
    requires
        before@.contains_key(index),
        forall|below: int| 0 <= below < index ==> #[trigger] before@.contains_key(below),
        after@ == before@.remove(index),
    ensures
        after.first_free(index),
{
    assert(!after@.contains_key(index));
    assert forall|below: int| 0 <= below < index implies #[trigger] after@.contains_key(below) by {
        assert(before@.contains_key(below));
    }
}

} // verus!

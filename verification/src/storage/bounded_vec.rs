//! A list with room for a fixed number of items.

use vstd::prelude::*;

verus! {

/// A list that holds at most `N` items.
#[derive(Debug)]
pub struct BoundedVec<T, const N: usize> {
    items: Vec<T>,
}

impl<T, const N: usize> View for BoundedVec<T, N> {
    type V = Seq<T>;

    closed spec fn view(&self) -> Seq<T> {
        self.items@
    }
}

impl<T, const N: usize> BoundedVec<T, N> {
    /// An empty list.
    pub fn new() -> (list: Self)
        ensures
            list@ == Seq::<T>::empty(),
    {
        BoundedVec { items: Vec::new() }
    }

    /// How many items the list holds.
    pub fn len(&self) -> (len: usize)
        ensures
            len == self@.len(),
    {
        self.items.len()
    }

    /// The items, in order.
    pub fn as_slice(&self) -> (items: &[T])
        ensures
            items@ == self@,
    {
        self.items.as_slice()
    }

    /// The items, in order, to be changed in place.
    pub fn as_mut_slice(&mut self) -> (items: &mut [T])
        ensures
            items@ == old(self)@,
            final(self)@ == final(items)@,
    {
        self.items.as_mut_slice()
    }

    /// The item at `index`.
    pub fn get(&self, index: usize) -> (item: &T)
        requires
            index < self@.len(),
        ensures
            *item == self@[index as int],
    {
        &self.items[index]
    }

    /// Replace the item at `index`.
    pub fn set(&mut self, index: usize, item: T)
        requires
            index < old(self)@.len(),
        ensures
            final(self)@ == old(self)@.update(index as int, item),
    {
        self.items[index] = item;
    }

    /// Append an item, or hand it back if there is no room for it.
    pub fn push(&mut self, item: T) -> (result: Result<(), T>)
        ensures
            old(self)@.len() < N ==> result is Ok && final(self)@ == old(self)@.push(item),
            old(self)@.len() >= N ==> result == Err::<(), T>(item) && final(self)@ == old(self)@,
    {
        if self.items.len() < N {
            self.items.push(item);
            Ok(())
        } else {
            Err(item)
        }
    }

    /// Take the item at `index` out, closing the gap.
    pub fn remove(&mut self, index: usize) -> (item: T)
        requires
            index < old(self)@.len(),
        ensures
            item == old(self)@[index as int],
            final(self)@ == old(self)@.remove(index as int),
    {
        self.items.remove(index)
    }

    /// Drop the items that `keep` turns down. `wanted` is what `keep` computes.
    pub(crate) fn retain<F: Fn(&T) -> bool>(&mut self, keep: F, wanted: Ghost<spec_fn(T) -> bool>)
        requires
            forall|item: &T| keep.requires((item,)),
            forall|item: &T, kept: bool| keep.ensures((item,), kept) ==> kept == wanted@(*item),
        ensures
            final(self)@ == old(self)@.filter(wanted@),
    {
        let ghost all = self@;
        let mut index: usize = 0;
        let ghost mut done: int = 0;
        proof {
            reveal(Seq::filter);
            assert(all.take(0).filter(wanted@) =~= Seq::<T>::empty());
            assert(self@ =~= all.take(0).filter(wanted@) + all.skip(0));
        }
        while index < self.items.len()
            invariant
                0 <= done <= all.len(),
                index == all.take(done).filter(wanted@).len(),
                self@ == all.take(done).filter(wanted@) + all.skip(done),
                forall|item: &T| keep.requires((item,)),
                forall|item: &T, kept: bool| keep.ensures((item,), kept) ==> kept == wanted@(*item),
            decreases all.len() - done,
        {
            proof {
                reveal(Seq::filter);
                assert(done < all.len());
                assert(self@[index as int] == all[done]);
                assert(all.take(done + 1).drop_last() =~= all.take(done));
                assert(all.take(done + 1).last() == all[done]);
            }
            if keep(&self.items[index]) {
                index += 1;
            } else {
                self.items.remove(index);
            }
            proof {
                done = done + 1;
                assert(self@ =~= all.take(done).filter(wanted@) + all.skip(done));
            }
        }
        assert(all.take(all.len() as int) =~= all);
        assert(done == all.len());
        assert(self@ =~= all.filter(wanted@));
    }
}

} // verus!

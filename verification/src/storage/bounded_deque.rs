//! A queue with room for a fixed number of items.

use vstd::prelude::*;

verus! {

/// A first-in, first-out queue that holds at most `N` items.
#[derive(Debug)]
pub struct BoundedDeque<T, const N: usize> {
    items: Vec<T>,
}

impl<T, const N: usize> View for BoundedDeque<T, N> {
    type V = Seq<T>;

    /// The queued items, the oldest first.
    closed spec fn view(&self) -> Seq<T> {
        self.items@
    }
}

impl<T, const N: usize> BoundedDeque<T, N> {
    /// An empty queue.
    pub fn new() -> (queue: Self)
        ensures
            queue@ == Seq::<T>::empty(),
    {
        BoundedDeque { items: Vec::new() }
    }

    /// How many items are queued.
    pub fn len(&self) -> (len: usize)
        ensures
            len == self@.len(),
    {
        self.items.len()
    }

    /// Whether nothing is queued.
    pub fn is_empty(&self) -> (empty: bool)
        ensures
            empty == (self@.len() == 0),
    {
        self.items.len() == 0
    }

    /// Queue an item, or hand it back if there is no room for it.
    pub fn push_back(&mut self, item: T) -> (result: Result<(), T>)
        ensures
            old(self)@.len() < N ==> result is Ok && final(self)@ == old(self)@.push(item),
            old(self)@.len() >= N ==> result == Err::<(), T>(item) && final(self)@ == old(self)@,
    {
        if self.items.len() < N {
            self.items.push(item);
            Ok(())
        } else {
            Err(item)
        }
    }

    /// Take the oldest item out.
    pub fn pop_front(&mut self) -> (item: Option<T>)
        ensures
            old(self)@.len() == 0 ==> item is None && final(self)@ == old(self)@,
            old(self)@.len() > 0 ==> item == Some(old(self)@[0]) && final(self)@
                == old(self)@.drop_first(),
    {
        if self.items.len() == 0 {
            None
        } else {
            let item = self.items.remove(0);
            assert(self@ =~= old(self)@.drop_first());
            Some(item)
        }
    }

    /// The oldest item.
    pub fn front(&self) -> (item: Option<&T>)
        ensures
            self@.len() == 0 ==> item is None,
            self@.len() > 0 ==> item == Some(&self@[0]),
    {
        if self.items.len() == 0 {
            None
        } else {
            Some(&self.items[0])
        }
    }

    /// Drop every item.
    pub fn clear(&mut self)
        ensures
            final(self)@ == Seq::<T>::empty(),
    {
        self.items.clear();
    }

    /// The item at `index`, counted from the oldest.
    pub fn get(&self, index: usize) -> (item: &T)
        requires
            index < self@.len(),
        ensures
            *item == self@[index as int],
    {
        &self.items[index]
    }

    /// Replace the item at `index`, counted from the oldest.
    pub fn set(&mut self, index: usize, item: T)
        requires
            index < old(self)@.len(),
        ensures
            final(self)@ == old(self)@.update(index as int, item),
    {
        self.items[index] = item;
    }

    /// Take the item at `index` out, closing the gap.
    pub fn remove(&mut self, index: usize) -> (item: T)
        requires
            index < old(self)@.len(),
        ensures
            item == old(self)@[index as int],
            final(self)@ == old(self)@.remove(index as int),
    {
        self.items.remove(index)
    }

    /// Drop the items that `keep` turns down. `wanted` is what `keep` computes.
    pub(crate) fn retain<F: Fn(&T) -> bool>(&mut self, keep: F, wanted: Ghost<spec_fn(T) -> bool>)
        requires
            forall|item: &T| keep.requires((item,)),
            forall|item: &T, kept: bool| keep.ensures((item,), kept) ==> kept == wanted@(*item),
        ensures
            final(self)@ == old(self)@.filter(wanted@),
    {
        let ghost all = self@;
        let mut index: usize = 0;
        let ghost mut done: int = 0;
        proof {
            reveal(Seq::filter);
            assert(all.take(0).filter(wanted@) =~= Seq::<T>::empty());
            assert(self@ =~= all.take(0).filter(wanted@) + all.skip(0));
        }
        while index < self.items.len()
            invariant
                0 <= done <= all.len(),
                index == all.take(done).filter(wanted@).len(),
                self@ == all.take(done).filter(wanted@) + all.skip(done),
                forall|item: &T| keep.requires((item,)),
                forall|item: &T, kept: bool| keep.ensures((item,), kept) ==> kept == wanted@(*item),
            decreases all.len() - done,
        {
            proof {
                reveal(Seq::filter);
                assert(done < all.len());
                assert(self@[index as int] == all[done]);
                assert(all.take(done + 1).drop_last() =~= all.take(done));
                assert(all.take(done + 1).last() == all[done]);
            }
            if keep(&self.items[index]) {
                index += 1;
            } else {
                self.items.remove(index);
            }
            proof {
                done = done + 1;
                assert(self@ =~= all.take(done).filter(wanted@) + all.skip(done));
            }
        }
        assert(all.take(all.len() as int) =~= all);
        assert(done == all.len());
        assert(self@ =~= all.filter(wanted@));
    }
}

} // verus!

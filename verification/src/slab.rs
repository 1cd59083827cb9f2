//! Vector of reusable slots addressed by plain indexes.

use vstd::prelude::*;

use crate::storage::slab;

verus! {

/// Reusable slots addressed by plain indexes, as many as needed.
///
/// A slot keeps its index for as long as its item lives; slots freed by
/// [`Slab::remove`] are handed out again, lowest index first.
pub struct Slab<T> {
    slots: Vec<Option<T>>,
}

impl<T> View for Slab<T> {
    type V = Seq<Option<T>>;

    closed spec fn view(&self) -> Seq<Option<T>> {
        self.slots@
    }
}

impl<T> Slab<T> {
    /// Create an empty slab.
    pub fn new() -> (r: Self)
        ensures
            r@ == Seq::<Option<T>>::empty(),
    {
        Slab { slots: Vec::new() }
    }

    /// Add an item, returning its index. Free slots are reused.
    ///
    /// The item is built by calling `f` with the index it is going to get, so that
    /// items can store their own handle.
    pub fn add_with<F: FnOnce(usize) -> T>(&mut self, f: F) -> (index: usize)
        requires
            forall|i: usize| slab::is_next_slot(old(self)@, i as int) ==> call_requires(f, (i,)),
        ensures
            slab::is_next_slot(old(self)@, index as int),
            slab::occupied(final(self)@, index as int),
            call_ensures(f, (index,), final(self)@[index as int]->0),
            final(self)@ == slab::with_item(old(self)@, index as int, final(self)@[index as int]->0),
    {
        let mut index: usize = 0;
        while index < self.slots.len()
            invariant
                index <= self.slots@.len(),
                *self == *old(self),
                forall|i: int| 0 <= i < index ==> #[trigger] self.slots@[i] is Some,
            ensures
                index < self.slots@.len() ==> self.slots@[index as int] is None,
            decreases self.slots@.len() - index,
        {
            if self.slots[index].is_none() {
                break;
            }
            index += 1;
        }
        assert(slab::is_next_slot(self@, index as int));
        let item = f(index);
        if index < self.slots.len() {
            self.slots[index] = Some(item);
        } else {
            self.slots.push(Some(item));
        }
        index
    }

    /// Remove the item at `index`, returning it.
    ///
    /// The slot at `index` must hold an item.
    pub fn remove(&mut self, index: usize) -> (r: T)
        requires
            slab::occupied(old(self)@, index as int),
        ensures
            r == old(self)@[index as int]->0,
            final(self)@ == old(self)@.update(index as int, None),
    {
        let item = self.slots[index].take();
        item.unwrap()
    }

    /// Get a reference to the item at `index`.
    ///
    /// The slot at `index` must hold an item.
    pub fn get(&self, index: usize) -> (r: &T)
        requires
            slab::occupied(self@, index as int),
        ensures
            *r == self@[index as int]->0,
    {
        self.slots[index].as_ref().unwrap()
    }

    /// Get a mutable reference to the item at `index`.
    ///
    /// The slot at `index` must hold an item.
    pub fn get_mut(&mut self, index: usize) -> (r: &mut T)
        requires
            slab::occupied(old(self)@, index as int),
        ensures
            *r == old(self)@[index as int]->0,
            final(self)@ == old(self)@.update(index as int, Some(*final(r))),
    {
        self.slots[index].as_mut().unwrap()
    }

    /// All occupied slots, with their indexes, in order.
    pub fn iter(&self) -> (r: Vec<(usize, &T)>)
        ensures
            slab::item_values(r@) == slab::items(self@),
    {
        let mut out: Vec<(usize, &T)> = Vec::new();
        let mut index: usize = 0;
        assert(slab::item_values(out@) =~= slab::items(self.slots@.take(0)));
        while index < self.slots.len()
            invariant
                index <= self.slots@.len(),
                slab::item_values(out@) == slab::items(self.slots@.take(index as int)),
            decreases self.slots@.len() - index,
        {
            proof {
                slab::lemma_items_step(self.slots@, index as int);
            }
            if let Some(item) = &self.slots[index] {
                let ghost before = out@;
                out.push((index, item));
                assert(slab::item_values(out@) =~= slab::item_values(before).push((index as int, *item)));
            }
            index += 1;
        }
        assert(self.slots@.take(index as int) =~= self.slots@);
        out
    }

    /// Walk over all occupied slots, with their indexes.
    pub fn iter_mut(&mut self) -> (r: IterMut<'_, T>)
        ensures
            *r.slab == *old(self),
            r.next == 0,
            *final(self) == *final(r.slab),
    {
        IterMut { slab: self, next: 0 }
    }
}

/// A walk over the items of a [`Slab`], returned by [`Slab::iter_mut`].
///
/// Each item borrows the slab, so only one can exist at a time. Use `while let`.
pub struct IterMut<'a, T> {
    pub slab: &'a mut Slab<T>,
    pub next: usize,
}

impl<'a, T> IterMut<'a, T> {
    /// Get the next item, with its index.
    ///
    /// Returns `None` when there are no more.
    pub fn next(&mut self) -> (r: Option<(usize, &mut T)>)
        ensures
            *final(final(self).slab) == *final(old(self).slab),
            match slab::next_occupied_slot(old(self).slab@, old(self).next as int) {
                Some(i) => {
                    &&& final(self).next == i + 1
                    &&& r matches Some((index, item)) && {
                        &&& index == i
                        &&& *item == old(self).slab@[i]->0
                        &&& final(self).slab@ == old(self).slab@.update(i, Some(*final(item)))
                    }
                },
                None => r is None && *final(self).slab == *old(self).slab,
            },
    {
        let ghost slots = self.slab@;
        let ghost from = self.next as int;
        while self.next < self.slab.slots.len()
            invariant_except_break
                slab::next_occupied_slot(slots, from) == slab::next_occupied_slot(slots, self.next as int),
            invariant
                *self.slab == *old(self).slab,
                *final(self.slab) == *final(old(self).slab),
                slots == self.slab.slots@,
            ensures
                slab::next_occupied_slot(slots, from) == slab::next_occupied_slot(slots, self.next as int),
                self.next < slots.len() ==> slots[self.next as int] is Some,
            decreases self.slab.slots@.len() - self.next,
        {
            if self.slab.slots[self.next].is_some() {
                break;
            }
            self.next = self.next + 1;
        }
        let index: usize = self.next;
        if index < self.slab.slots.len() {
            self.next = index + 1;
            Some((index, self.slab.get_mut(index)))
        } else {
            None
        }
    }
}

} // verus!

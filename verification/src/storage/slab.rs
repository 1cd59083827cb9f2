//! Reusable slots addressed by plain indexes.

use vstd::prelude::*;

use crate::storage::Full;

verus! {

/// Reusable slots addressed by plain indexes, at most `N` of them.
///
/// A slot keeps its index for as long as its item lives; slots freed by
/// [`Slab::remove`] are handed out again, lowest index first.
pub struct Slab<T, const N: usize> {
    slots: Vec<Option<T>>,
}

impl<T, const N: usize> View for Slab<T, N> {
    type V = Seq<Option<T>>;

    closed spec fn view(&self) -> Seq<Option<T>> {
        self.slots@
    }
}

/// Whether slot `index` holds an item.
pub open spec fn occupied<T>(slots: Seq<Option<T>>, index: int) -> bool {
    0 <= index < slots.len() && slots[index] is Some
}

/// Whether `index` is the slot the next item goes to: the lowest free slot, or
/// a new one after the last when every slot is taken.
pub open spec fn is_next_slot<T>(slots: Seq<Option<T>>, index: int) -> bool {
    &&& 0 <= index <= slots.len()
    &&& forall|i: int| 0 <= i < index ==> #[trigger] slots[i] is Some
    &&& index < slots.len() ==> slots[index] is None
}

/// Whether every one of `n` slots is taken.
pub open spec fn no_room<T>(slots: Seq<Option<T>>, n: int) -> bool {
    slots.len() >= n && forall|i: int| 0 <= i < slots.len() ==> #[trigger] slots[i] is Some
}

/// The slots with `item` stored at `index`, growing by one if `index` is the
/// slot after the last.
pub open spec fn with_item<T>(slots: Seq<Option<T>>, index: int, item: T) -> Seq<Option<T>> {
    if index == slots.len() {
        slots.push(Some(item))
    } else {
        slots.update(index, Some(item))
    }
}

/// The first occupied slot at or after `from`, or `None`.
pub open spec fn next_occupied_slot<T>(slots: Seq<Option<T>>, from: int) -> Option<int>
    decreases slots.len() - from,
{
    if from < 0 || from >= slots.len() {
        None
    } else if slots[from] is Some {
        Some(from)
    } else {
        next_occupied_slot(slots, from + 1)
    }
}

/// The items that the slots hold, with their indexes, in order.
pub open spec fn items<T>(slots: Seq<Option<T>>) -> Seq<(int, T)>
    decreases slots.len(),
{
    if slots.len() == 0 {
        Seq::empty()
    } else {
        let before = items(slots.drop_last());
        match slots.last() {
            Some(item) => before.push((slots.len() - 1, item)),
            None => before,
        }
    }
}

/// Items found, with their indexes, as plain values.
pub open spec fn item_values<T>(found: Seq<(usize, &T)>) -> Seq<(int, T)> {
    found.map_values(|entry: (usize, &T)| (entry.0 as int, *entry.1))
}

/// One more slot.
pub proof fn lemma_items_step<T>(slots: Seq<Option<T>>, n: int)
    requires
        0 <= n < slots.len(),
    ensures
        items(slots.take(n + 1)) == match slots[n] {
            Some(item) => items(slots.take(n)).push((n, item)),
            None => items(slots.take(n)),
        },
{
    assert(slots.take(n + 1).drop_last() =~= slots.take(n));
}

/// The items of a slab are those of its occupied slots, each once, lowest index first.
pub proof fn law_items_are_the_occupied_slots<T>(slots: Seq<Option<T>>)
    ensures
        forall|k: int|
            0 <= k < items(slots).len() ==> {
                &&& occupied(slots, (#[trigger] items(slots)[k]).0)
                &&& slots[items(slots)[k].0] == Some(items(slots)[k].1)
            },
        forall|k: int, l: int|
            0 <= k < l < items(slots).len() ==> (#[trigger] items(slots)[k]).0 < (#[trigger] items(slots)[l]).0,
        forall|i: int|
            #[trigger] occupied(slots, i) ==> items(slots).contains((i, slots[i]->0)),
    decreases slots.len(),
{
    if slots.len() > 0 {
        let rest = slots.drop_last();
        law_items_are_the_occupied_slots(rest);
        assert forall|i: int| #[trigger] occupied(slots, i) implies items(slots).contains((i, slots[i]->0)) by {
            if i < rest.len() {
                assert(occupied(rest, i));
                let k = choose|k: int| 0 <= k < items(rest).len() && items(rest)[k] == (i, rest[i]->0);
                assert(items(slots)[k] == (i, slots[i]->0));
            } else {
                assert(items(slots)[items(rest).len() as int] == (i, slots[i]->0));
            }
        }
    }
}

/// What a slot holds.
pub open spec fn slot_view<T: View>(slot: Option<T>) -> Option<T::V> {
    match slot {
        Some(item) => Some(item@),
        None => None,
    }
}

/// What the slots hold.
pub open spec fn views<T: View>(slots: Seq<Option<T>>) -> Seq<Option<T::V>> {
    slots.map_values(|slot: Option<T>| slot_view(slot))
}

/// What slots hold after one of them was written to.
pub proof fn lemma_views_update<T: View>(slots: Seq<Option<T>>, i: int, item: T)
    requires
        0 <= i < slots.len(),
    ensures
        views(slots.update(i, Some(item))) == views(slots).update(i, Some(item@)),
{
    assert(views(slots.update(i, Some(item))) =~= views(slots).update(i, Some(item@)));
}

/// What slots hold after an item was added.
pub proof fn lemma_views_with_item<T: View>(slots: Seq<Option<T>>, i: int, item: T)
    requires
        0 <= i <= slots.len(),
    ensures
        views(with_item(slots, i, item)) == with_item(views(slots), i, item@),
{
    assert(views(with_item(slots, i, item)) =~= with_item(views(slots), i, item@));
}

/// What slots hold after an item was removed.
pub proof fn lemma_views_removed<T: View>(slots: Seq<Option<T>>, i: int)
    requires
        0 <= i < slots.len(),
    ensures
        views(slots.update(i, None)) == views(slots).update(i, None),
{
    assert(views(slots.update(i, None)) =~= views(slots).update(i, None));
}

/// Slots and what they hold have the same room.
pub proof fn lemma_views_room<T: View>(slots: Seq<Option<T>>, n: int)
    ensures
        no_room(views(slots), n) == no_room(slots, n),
        forall|i: int| #[trigger] is_next_slot(views(slots), i) == is_next_slot(slots, i),
        forall|i: int| #[trigger] occupied(views(slots), i) == occupied(slots, i),
{
    let v = views(slots);
    assert(forall|i: int| 0 <= i < slots.len() ==> (#[trigger] v[i] is Some) == (slots[i] is Some));
    assert(forall|i: int| 0 <= i < slots.len() ==> (#[trigger] slots[i] is Some) == (v[i] is Some));
    assert forall|i: int| #[trigger] is_next_slot(v, i) == is_next_slot(slots, i) by {
        if is_next_slot(v, i) {
            assert(forall|k: int| 0 <= k < i ==> (#[trigger] slots[k]) is Some);
        }
        if is_next_slot(slots, i) {
            assert(forall|k: int| 0 <= k < i ==> (#[trigger] v[k]) is Some);
        }
    }
}

/// Slots and what they hold are occupied alike.
pub proof fn lemma_next_occupied_views<T: View>(slots: Seq<Option<T>>, from: int)
    requires
        0 <= from,
    ensures
        next_occupied_slot(views(slots), from) == next_occupied_slot(slots, from),
    decreases slots.len() - from,
{
    if from < slots.len() && slots[from] is None {
        lemma_next_occupied_views(slots, from + 1);
    }
}

/// The next occupied slot is occupied.
pub proof fn lemma_next_occupied<T>(slots: Seq<Option<T>>, from: int)
    requires
        0 <= from,
    ensures
        next_occupied_slot(slots, from) matches Some(i) ==> from <= i && occupied(slots, i),
    decreases slots.len() - from,
{
    if from < slots.len() && slots[from] is None {
        lemma_next_occupied(slots, from + 1);
    }
}

/// A walk passes over free slots only.
pub proof fn law_walk_skips_only_free_slots<T>(slots: Seq<Option<T>>, from: int)
    requires
        0 <= from,
    ensures
        match next_occupied_slot(slots, from) {
            Some(i) => {
                &&& from <= i
                &&& occupied(slots, i)
                &&& forall|j: int| from <= j < i ==> #[trigger] slots[j] is None
            },
            None => forall|j: int| from <= j < slots.len() ==> #[trigger] slots[j] is None,
        },
    decreases slots.len() - from,
{
    if from < slots.len() && slots[from] is None {
        law_walk_skips_only_free_slots(slots, from + 1);
    }
}

impl<T, const N: usize> Slab<T, N> {
    /// The slab never holds more than `N` slots.
    pub closed spec fn wf(&self) -> bool {
        self.slots@.len() <= N
    }

    /// Create an empty slab.
    pub fn new() -> (r: Self)
        ensures
            r.wf(),
            r@ == Seq::<Option<T>>::empty(),
    {
        Slab { slots: Vec::new() }
    }

    /// The length of the slot table never exceeds the bound.
    pub proof fn lemma_bounded(&self)
        requires
            self.wf(),
        ensures
            self@.len() <= N,
    {
    }

    /// Add an item, returning its index. Free slots are reused.
    ///
    /// The item is built by calling `f` with the index it is going to get, so that
    /// items can store their own handle. `f` is not called if there is no room.
    pub fn add_with<F: FnOnce(usize) -> T>(&mut self, f: F) -> (r: Result<usize, Full>)
        requires
            old(self).wf(),
            forall|i: usize| i < N ==> call_requires(f, (i,)),
        ensures
            final(self).wf(),
            r is Err <==> no_room(old(self)@, N as int),
            r is Err ==> final(self)@ == old(self)@,
            r matches Ok(index) ==> {
                &&& index < N
                &&& is_next_slot(old(self)@, index as int)
                &&& occupied(final(self)@, index as int)
                &&& call_ensures(f, (index,), final(self)@[index as int]->0)
                &&& final(self)@ == with_item(old(self)@, index as int, final(self)@[index as int]->0)
            },
    {
        let mut index: usize = 0;
        while index < self.slots.len()
            invariant
                index <= self.slots@.len() <= N,
                *self == *old(self),
                forall|i: int| 0 <= i < index ==> #[trigger] self.slots@[i] is Some,
            ensures
                index < self.slots@.len() ==> self.slots@[index as int] is None,
            decreases self.slots@.len() - index,
        {
            if self.slots[index].is_none() {
                break;
            }
            index += 1;
        }
        if index < self.slots.len() {
            let item = f(index);
            self.slots[index] = Some(item);
            return Ok(index);
        }
        if index < N {
            let item = f(index);
            self.slots.push(Some(item));
            Ok(index)
        } else {
            Err(Full)
        }
    }

    /// Whether [`add_with`](Self::add_with) would fail.
    pub fn is_full(&self) -> (r: bool)
        requires
            self.wf(),
        ensures
            r == no_room(self@, N as int),
    {
        let mut index: usize = 0;
        while index < self.slots.len()
            invariant
                index <= self.slots@.len(),
                forall|i: int| 0 <= i < index ==> #[trigger] self.slots@[i] is Some,
            decreases self.slots@.len() - index,
        {
            if self.slots[index].is_none() {
                return false;
            }
            index += 1;
        }
        self.slots.len() >= N
    }

    /// Remove the item at `index`, returning it.
    pub fn remove(&mut self, index: usize) -> (r: T)
        requires
            old(self).wf(),
            occupied(old(self)@, index as int),
        ensures
            final(self).wf(),
            r == old(self)@[index as int]->0,
            final(self)@ == old(self)@.update(index as int, None),
    {
        let item = self.slots[index].take();
        item.unwrap()
    }

    /// Get a reference to the item at `index`.
    pub fn get(&self, index: usize) -> (r: &T)
        requires
            occupied(self@, index as int),
        ensures
            *r == self@[index as int]->0,
    {
        self.slots[index].as_ref().unwrap()
    }

    /// Get a mutable reference to the item at `index`.
    pub fn get_mut(&mut self, index: usize) -> (r: &mut T)
        requires
            occupied(old(self)@, index as int),
        ensures
            *r == old(self)@[index as int]->0,
            final(self)@ == old(self)@.update(index as int, Some(*final(r))),
            old(self).wf() ==> final(self).wf(),
    {
        self.slots[index].as_mut().unwrap()
    }

    /// Index of the first occupied slot at or after `from`, if any.
    pub fn next_occupied(&self, from: usize) -> (r: Option<usize>)
        ensures
            (match r {
                Some(i) => Some(i as int),
                None => None,
            }) == next_occupied_slot(self@, from as int),
            r matches Some(i) ==> from <= i && occupied(self@, i as int),
            r is None ==> forall|j: int| from <= j < self@.len() ==> #[trigger] self@[j] is None,
    {
        let mut index: usize = from;
        while index < self.slots.len()
            invariant
                from <= index,
                forall|j: int| from <= j < index && j < self.slots@.len() ==> #[trigger] self.slots@[j] is None,
                next_occupied_slot(self.slots@, from as int) == next_occupied_slot(self.slots@, index as int),
            decreases self.slots@.len() - index,
        {
            if self.slots[index].is_some() {
                return Some(index);
            }
            index += 1;
        }
        None
    }

    /// The number of slots, free ones included.
    pub fn slot_count(&self) -> (r: usize)
        ensures
            r == self@.len(),
    {
        self.slots.len()
    }

    /// Whether slot `index` holds an item.
    pub fn is_occupied(&self, index: usize) -> (r: bool)
        ensures
            r == occupied(self@, index as int),
    {
        index < self.slots.len() && self.slots[index].is_some()
    }

    /// All occupied slots, with their indexes, in order.
    pub fn iter(&self) -> (r: Vec<(usize, &T)>)
        ensures
            item_values(r@) == items(self@),
    {
        let mut out: Vec<(usize, &T)> = Vec::new();
        let mut index: usize = 0;
        assert(item_values(out@) =~= items(self.slots@.take(0)));
        while index < self.slots.len()
            invariant
                index <= self.slots@.len(),
                item_values(out@) == items(self.slots@.take(index as int)),
            decreases self.slots@.len() - index,
        {
            proof {
                lemma_items_step(self.slots@, index as int);
            }
            if let Some(item) = &self.slots[index] {
                let ghost before = out@;
                out.push((index, item));
                assert(item_values(out@) =~= item_values(before).push((index as int, *item)));
            }
            index += 1;
        }
        assert(self.slots@.take(index as int) =~= self.slots@);
        out
    }

    /// Walk over all occupied slots, with their indexes.
    pub fn iter_mut(&mut self) -> (r: IterMut<'_, T, N>)
        ensures
            *r.slab == *old(self),
            r.next == 0,
            *final(self) == *final(r.slab),
    {
        IterMut { slab: self, next: 0 }
    }
}

/// A walk over the items of a [`Slab`], returned by [`Slab::iter_mut`].
///
/// Each item borrows the slab, so only one can exist at a time. Use `while let`.
pub struct IterMut<'a, T, const N: usize> {
    pub slab: &'a mut Slab<T, N>,
    pub next: usize,
}

impl<'a, T, const N: usize> IterMut<'a, T, N> {
    /// Get the next item, with its index.
    ///
    /// Returns `None` when there are no more.
    pub fn next(&mut self) -> (r: Option<(usize, &mut T)>)
        requires
            old(self).slab.wf(),
        ensures
            final(self).slab.wf(),
            *final(final(self).slab) == *final(old(self).slab),
            match next_occupied_slot(old(self).slab@, old(self).next as int) {
                Some(i) => {
                    &&& final(self).next == i + 1
                    &&& r matches Some((index, item)) && {
                        &&& index == i
                        &&& *item == old(self).slab@[i]->0
                        &&& final(self).slab@ == old(self).slab@.update(i, Some(*final(item)))
                    }
                },
                None => r is None && final(self).next == old(self).next && *final(self).slab == *old(self).slab,
            },
    {
        match self.slab.next_occupied(self.next) {
            Some(index) => {
                proof {
                    self.slab.lemma_bounded();
                }
                self.next = index + 1;
                Some((index, self.slab.get_mut(index)))
            },
            None => None,
        }
    }
}

impl<T, const N: usize> Default for Slab<T, N> {
    fn default() -> (r: Self)
        ensures
            r.wf(),
            r@ == Seq::<Option<T>>::empty(),
    {
        Self::new()
    }
}

/// An item added to a slab is found again at the index it was given.
pub proof fn law_added_item_is_found<T>(slots: Seq<Option<T>>, index: int, item: T)
    requires
        is_next_slot(slots, index),
    ensures
        occupied(with_item(slots, index, item), index),
        with_item(slots, index, item)[index] == Some(item),
{
}

/// Adding an item leaves every other slot as it was.
pub proof fn law_adding_keeps_others<T>(slots: Seq<Option<T>>, index: int, item: T, other: int)
    requires
        is_next_slot(slots, index),
        0 <= other < slots.len(),
        other != index,
    ensures
        with_item(slots, index, item)[other] == slots[other],
{
}

/// A freed slot is the next one reused when every slot below it is taken.
pub proof fn law_freed_slot_is_reused<T>(slots: Seq<Option<T>>, index: int)
    requires
        occupied(slots, index),
        forall|i: int| 0 <= i < index ==> #[trigger] slots[i] is Some,
    ensures
        is_next_slot(slots.update(index, None), index),
{
}

/// Removing the item that was just added restores the slots, but for a trailing
/// free slot.
pub proof fn law_remove_undoes_add<T>(slots: Seq<Option<T>>, index: int, item: T)
    requires
        is_next_slot(slots, index),
    ensures
        with_item(slots, index, item).update(index, None) == if index == slots.len() {
            slots.push(None)
        } else {
            slots
        },
{
    assert(with_item(slots, index, item).update(index, None) =~= if index == slots.len() {
        slots.push(None)
    } else {
        slots
    });
}

} // verus!

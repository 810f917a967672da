//! Access to the items of an address-fixed sequence.
//!
//! Plain indexing cannot hand out an address-fixed reference, so accessors
//! (`get` and the like) and an iterator are offered instead. The array form
//! and the variable-length form share one implementation on slices.

use crate::pinned_pin::PinnedPin;
use tap::Pipe;
use vstd::prelude::*;

verus! {

/// `<[T]>::get_mut` of std: an exclusive reference to the item at `index`, or
/// `None` exactly when `index` is out of bounds. Whatever the caller writes
/// through the reference is the only change to the slice.
#[verifier::external_body]
pub(crate) fn slice_get_mut<T>(slice: &mut [T], index: usize) -> (item: Option<&mut T>)
    ensures
        index >= old(slice)@.len() ==> item is None && final(slice)@ == old(slice)@,
        index < old(slice)@.len() ==> item is Some && *item.unwrap() == old(slice)@[index as int]
            && final(slice)@ == old(slice)@.update(index as int, *final(item.unwrap())),
{
    slice.get_mut(index)
}

/// `<[T; N]>::as_mut_slice` of std: the whole array as an exclusive slice.
/// Whatever the caller writes through the slice is the only change to the
/// array.
#[verifier::external_body]
fn array_as_mut_slice<T, const N: usize>(array: &mut [T; N]) -> (slice: &mut [T])
    ensures
        slice@ == old(array)@,
        final(array)@ == final(slice)@,
{
    array.as_mut_slice()
}

/// `tap::Pipe::pipe`: hands `value` to `func`, which must accept it, and
/// returns what `func` returns.
#[verifier::external_body]
fn pipe<T, R, F: FnOnce(T) -> R>(value: T, func: F) -> (result: R)
    requires
        call_requires(func, (value,)),
    ensures
        call_ensures(func, (value,), result),
{
    value.pipe(func)
}

/// Retrieves a shared reference to the item at `index`, or `None` exactly
/// when `index` is out of bounds.
fn item_at<Item>(items: &[Item], index: usize) -> (item: Option<&Item>)
    ensures
        item == (if index < items@.len() {
            Some(&items@[index as int])
        } else {
            None
        }),
{
    if index < items.len() {
        Some(&items[index])
    } else {
        None
    }
}

impl<Item, const N: usize> PinnedPin<[Item; N]> {
    /// Views the address-fixed array as an address-fixed slice.
    #[must_use]
    pub fn as_pinned_slice(&self) -> (slice: &[Item])
        ensures
            slice@ == self.0@,
    {
        self.0.as_slice()
    }

    /// Views the address-fixed array as an address-fixed slice, exclusively.
    #[must_use]
    pub fn as_pinned_mut_slice(&mut self) -> (slice: &mut [Item])
        ensures
            slice@ == old(self).0@,
            final(self).0@ == final(slice)@,
    {
        array_as_mut_slice(&mut self.0)
    }

    /// Retrieves a shared reference to an address-fixed item, or `None`
    /// exactly when `index >= N`.
    #[must_use]
    pub fn get(&self, index: usize) -> (item: Option<&Item>)
        ensures
            item == (if index < N {
                Some(&self.0@[index as int])
            } else {
                None
            }),
    {
        item_at(self.as_pinned_slice(), index)
    }

    /// Retrieves an exclusive reference to an address-fixed item, or `None`
    /// exactly when `index >= N`.
    #[must_use]
    pub fn get_mut(&mut self, index: usize) -> (item: Option<&mut Item>)
        ensures
            index >= N ==> item is None && final(self).0@ == old(self).0@,
            index < N ==> item is Some && *item.unwrap() == old(self).0@[index as int]
                && final(self).0@ == old(self).0@.update(index as int, *final(item.unwrap())),
    {
        slice_get_mut(self.as_pinned_mut_slice(), index)
    }

    /// Retrieves a shared reference to an address-fixed item without a
    /// bounds check: the caller keeps `index` in bounds.
    #[must_use]
    pub fn get_unchecked(&self, index: usize) -> (item: &Item)
        requires
            index < N,
        ensures
            *item == self.0@[index as int],
    {
        &self.0[index]
    }

    /// Retrieves an exclusive reference to an address-fixed item without a
    /// bounds check: the caller keeps `index` in bounds.
    #[must_use]
    pub fn get_unchecked_mut(&mut self, index: usize) -> (item: &mut Item)
        requires
            index < N,
        ensures
            *item == old(self).0@[index as int],
            final(self).0@ == old(self).0@.update(index as int, *final(item)),
    {
        slice_get_mut(self.as_pinned_mut_slice(), index).unwrap()
    }

    /// An iterator over the address-fixed items, front to back.
    #[must_use]
    pub fn iter(&self) -> (iter: Iter<'_, Item>)
        ensures
            iter.remaining() == self.0@,
    {
        pipe(self.as_pinned_slice(), Iter::over)
    }

    /// An exclusive iterator over the address-fixed items, front to back.
    #[must_use]
    pub fn iter_mut(&mut self) -> (iter: IterMut<'_, Item>)
        ensures
            iter.remaining() == old(self).0@,
    {
        pipe(self.as_pinned_mut_slice(), IterMut::over)
    }
}

impl<Item> PinnedPin<Vec<Item>> {
    /// Views the address-fixed sequence as an address-fixed slice.
    #[must_use]
    pub fn as_pinned_slice(&self) -> (slice: &[Item])
        ensures
            slice@ == self.0@,
    {
        self.0.as_slice()
    }

    /// Views the address-fixed sequence as an address-fixed slice,
    /// exclusively.
    #[must_use]
    pub fn as_pinned_mut_slice(&mut self) -> (slice: &mut [Item])
        ensures
            slice@ == old(self).0@,
            final(self).0@ == final(slice)@,
    {
        self.0.as_mut_slice()
    }

    /// Retrieves a shared reference to an address-fixed item, or `None`
    /// exactly when `index` is out of bounds.
    #[must_use]
    pub fn get(&self, index: usize) -> (item: Option<&Item>)
        ensures
            item == (if index < self.0@.len() {
                Some(&self.0@[index as int])
            } else {
                None
            }),
    {
        item_at(self.as_pinned_slice(), index)
    }

    /// Retrieves an exclusive reference to an address-fixed item, or `None`
    /// exactly when `index` is out of bounds.
    #[must_use]
    pub fn get_mut(&mut self, index: usize) -> (item: Option<&mut Item>)
        ensures
            index >= old(self).0@.len() ==> item is None && final(self).0@ == old(self).0@,
            index < old(self).0@.len() ==> item is Some && *item.unwrap() == old(
                self).0@[index as int] && final(self).0@ == old(self).0@.update(
                index as int,
                *final(item.unwrap()),
            ),
    {
        slice_get_mut(self.as_pinned_mut_slice(), index)
    }

    /// Retrieves a shared reference to an address-fixed item without a
    /// bounds check: the caller keeps `index` in bounds.
    #[must_use]
    pub fn get_unchecked(&self, index: usize) -> (item: &Item)
        requires
            index < self.0@.len(),
        ensures
            *item == self.0@[index as int],
    {
        &self.0[index]
    }

    /// Retrieves an exclusive reference to an address-fixed item without a
    /// bounds check: the caller keeps `index` in bounds.
    #[must_use]
    pub fn get_unchecked_mut(&mut self, index: usize) -> (item: &mut Item)
        requires
            index < old(self).0@.len(),
        ensures
            *item == old(self).0@[index as int],
            final(self).0@ == old(self).0@.update(index as int, *final(item)),
    {
        &mut self.0[index]
    }

    /// An iterator over the address-fixed items, front to back.
    #[must_use]
    pub fn iter(&self) -> (iter: Iter<'_, Item>)
        ensures
            iter.remaining() == self.0@,
    {
        pipe(self.as_pinned_slice(), Iter::over)
    }

    /// An exclusive iterator over the address-fixed items, front to back.
    #[must_use]
    pub fn iter_mut(&mut self) -> (iter: IterMut<'_, Item>)
        ensures
            iter.remaining() == old(self).0@,
    {
        pipe(self.as_pinned_mut_slice(), IterMut::over)
    }
}

/// A sharing iterator over the items of an address-fixed sequence.
///
/// It is finite, can be walked from both ends, and knows exactly how many
/// items are left. To start over, make a new one.
#[derive(Debug)]
pub struct Iter<'a, Item> {
    items: &'a [Item],
    front: usize,
    back: usize,
}

impl<'a, Item> Iter<'a, Item> {
    #[verifier::type_invariant]
    spec fn bounded(self) -> bool {
        self.front <= self.back <= self.items@.len()
    }

    /// The items that are still to come, front to back.
    pub closed spec fn remaining(&self) -> Seq<Item> {
        self.items@.subrange(self.front as int, self.back as int)
    }

    /// An iterator over all of `items`.
    pub(crate) fn over(items: &'a [Item]) -> (iter: Self)
        ensures
            iter.remaining() == items@,
    {
        let iter = Iter { items, front: 0, back: items.len() };
        assert(iter.remaining() =~= items@);
        iter
    }

    /// Hands out the first of the remaining items, if there is one.
    pub fn next(&mut self) -> (item: Option<&'a Item>)
        ensures
            old(self).remaining().len() == 0 ==> item is None && final(self).remaining() == old(
                self).remaining(),
            old(self).remaining().len() > 0 ==> item == Some(&old(self).remaining().first())
                && final(self).remaining() == old(self).remaining().drop_first(),
    {
        proof {
            use_type_invariant(&*self);
        }
        if self.front < self.back {
            let item = &self.items[self.front];
            self.front += 1;
            assert(self.remaining() =~= old(self).remaining().drop_first());
            Some(item)
        } else {
            None
        }
    }

    /// Hands out the last of the remaining items, if there is one.
    pub fn next_back(&mut self) -> (item: Option<&'a Item>)
        ensures
            old(self).remaining().len() == 0 ==> item is None && final(self).remaining() == old(
                self).remaining(),
            old(self).remaining().len() > 0 ==> item == Some(&old(self).remaining().last())
                && final(self).remaining() == old(self).remaining().drop_last(),
    {
        proof {
            use_type_invariant(&*self);
        }
        if self.front < self.back {
            self.back -= 1;
            let item = &self.items[self.back];
            assert(self.remaining() =~= old(self).remaining().drop_last());
            Some(item)
        } else {
            None
        }
    }

    /// The number of remaining items, as lower and upper bound: both are
    /// exact.
    pub fn size_hint(&self) -> (bounds: (usize, Option<usize>))
        ensures
            bounds.0 == self.remaining().len(),
            bounds.1 == Some(bounds.0),
    {
        proof {
            use_type_invariant(self);
        }
        let left = self.back - self.front;
        (left, Some(left))
    }
}

/// An exclusive iterator over the items of an address-fixed sequence.
///
/// It is finite and knows exactly how many items are left. To start over,
/// make a new one.
pub struct IterMut<'a, Item> {
    rest: &'a mut [Item],
}

impl<'a, Item> IterMut<'a, Item> {
    /// The items that are still to come, front to back.
    pub closed spec fn remaining(&self) -> Seq<Item> {
        self.rest@
    }

    /// An iterator over all of `items`.
    pub(crate) fn over(items: &'a mut [Item]) -> (iter: Self)
        ensures
            iter.remaining() == old(items)@,
    {
        IterMut { rest: items }
    }

    /// Hands out the first of the remaining items, if there is one.
    pub fn next(&mut self) -> (item: Option<&'a mut Item>)
        ensures
            old(self).remaining().len() == 0 ==> item is None && final(self).remaining() == old(
                self).remaining(),
            old(self).remaining().len() > 0 ==> item is Some && *item.unwrap() == old(
                self).remaining().first() && final(self).remaining() == old(
                self).remaining().drop_first(),
    {
        let mut taken: &'a mut [Item] = &mut [];
        core::mem::swap(&mut self.rest, &mut taken);
        if taken.len() == 0 {
            None
        } else {
            let (head, tail) = taken.split_at_mut(1);
            assert(tail@ =~= old(self).remaining().drop_first());
            self.rest = tail;
            head.first_mut()
        }
    }

    /// Hands out the last of the remaining items, if there is one.
    pub fn next_back(&mut self) -> (item: Option<&'a mut Item>)
        ensures
            old(self).remaining().len() == 0 ==> item is None && final(self).remaining() == old(
                self).remaining(),
            old(self).remaining().len() > 0 ==> item is Some && *item.unwrap() == old(
                self).remaining().last() && final(self).remaining() == old(
                self).remaining().drop_last(),
    {
        let mut taken: &'a mut [Item] = &mut [];
        core::mem::swap(&mut self.rest, &mut taken);
        let left = taken.len();
        if left == 0 {
            None
        } else {
            let (head, tail) = taken.split_at_mut(left - 1);
            assert(head@ =~= old(self).remaining().drop_last());
            self.rest = head;
            tail.first_mut()
        }
    }

    /// The number of remaining items, as lower and upper bound: both are
    /// exact.
    pub fn size_hint(&self) -> (bounds: (usize, Option<usize>))
        ensures
            bounds.0 == self.remaining().len(),
            bounds.1 == Some(bounds.0),
    {
        let left = self.rest.len();
        (left, Some(left))
    }
}

} // verus!

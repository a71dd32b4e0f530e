//! A bounded history: the monitor keeps the last readings and the last
//! reached set points, the oldest dropped first.

use std::collections::VecDeque;
use vstd::prelude::*;

verus! {

broadcast use vstd::std_specs::vecdeque::group_vec_dequeue_axioms;

/// The items of `s` once `item` is added at the end, keeping at most
/// `capacity` of them: the oldest goes first.
pub open spec fn pushed_bounded<T>(s: Seq<T>, item: T, capacity: nat) -> Seq<T> {
    let t = s.push(item);
    if t.len() > capacity {
        t.drop_first()
    } else {
        t
    }
}

/// The newest `capacity` items of `s`, oldest first; all of them where
/// there are no more.
pub open spec fn newest<T>(s: Seq<T>, capacity: nat) -> Seq<T> {
    if s.len() > capacity {
        s.subrange(s.len() - capacity, s.len() as int)
    } else {
        s
    }
}

/// The last items added, oldest first, at most `capacity` of them.
pub struct History<T> {
    items: VecDeque<T>,
    capacity: usize,
}

impl<T> View for History<T> {
    type V = Seq<T>;

    closed spec fn view(&self) -> Seq<T> {
        self.items@
    }
}

impl<T> History<T> {
    /// How many items the history keeps.
    pub closed spec fn capacity(&self) -> nat {
        self.capacity as nat
    }

    /// An empty history that keeps at most `capacity` items.
    pub fn with_capacity(capacity: usize) -> (h: History<T>)
        ensures
            h@ == Seq::<T>::empty(),
            h.capacity() == capacity,
    {
        History { items: VecDeque::new(), capacity }
    }

    /// Adds `item` at the end; if the history then holds more than its
    /// capacity, the oldest item is dropped.
    pub fn push(&mut self, item: T)
        ensures
            final(self)@ == pushed_bounded(old(self)@, item, old(self).capacity()),
            final(self).capacity() == old(self).capacity(),
    {
        self.items.push_back(item);
        if self.items.len() > self.capacity {
            let _ = self.items.pop_front();
            assert(self.items@ =~= old(self)@.push(item).drop_first());
        }
    }

    /// The number of items kept.
    pub fn len(&self) -> (n: usize)
        ensures
            n == self@.len(),
    {
        self.items.len()
    }

    /// Whether nothing is kept.
    pub fn is_empty(&self) -> (b: bool)
        ensures
            b == (self@.len() == 0),
    {
        self.items.len() == 0
    }

    /// The newest item, if any.
    pub fn back(&self) -> (b: Option<&T>)
        ensures
            self@.len() == 0 ==> b is None,
            self@.len() > 0 ==> b == Some(&self@.last()),
    {
        let n = self.items.len();
        if n == 0 {
            None
        } else {
            Some(&self.items[n - 1])
        }
    }

    /// The items kept, oldest first.
    pub fn items(&self) -> (v: &VecDeque<T>)
        ensures
            v@ == self@,
    {
        &self.items
    }
}

/// A history never holds more than its capacity, and adding an item keeps
/// the newest ones in order with the new item last.
pub proof fn lemma_history_bounded<T>(s: Seq<T>, item: T, capacity: nat)
    requires
        s.len() <= capacity,
        capacity >= 1,
    ensures
        pushed_bounded(s, item, capacity).len() <= capacity,
        pushed_bounded(s, item, capacity).last() == item,
        s.len() < capacity ==> pushed_bounded(s, item, capacity) == s.push(item),
        s.len() == capacity ==> pushed_bounded(s, item, capacity) == s.drop_first().push(item),
{
    if s.len() == capacity {
        assert(s.push(item).drop_first() =~= s.drop_first().push(item));
    }
}

/// Adding an item to the newest items of a sequence keeps the newest items
/// of the sequence with that item added.
pub proof fn lemma_push_keeps_newest<T>(s: Seq<T>, item: T, capacity: nat)
    ensures
        pushed_bounded(newest(s, capacity), item, capacity) == newest(s.push(item), capacity),
{
    if s.len() > capacity {
        assert(newest(s, capacity).push(item).drop_first() =~= newest(s.push(item), capacity));
    } else if s.len() == capacity {
        assert(s.push(item).drop_first() =~= newest(s.push(item), capacity));
    }
}

} // verus!

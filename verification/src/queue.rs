//! The bounded queue between the receiver and the workers.
//!
//! Packets leave in the order in which they came. A packet that comes
//! while the queue is full is dropped and counted: the receiver never
//! waits for a worker.

use std::collections::VecDeque;
use vstd::prelude::*;

verus! {

/// A first-in, first-out queue that holds at most `capacity` items and
/// counts the items it had to turn away.
pub struct PacketQueue<T> {
    items: VecDeque<T>,
    capacity: usize,
    dropped: u64,
}

impl<T> View for PacketQueue<T> {
    type V = Seq<T>;

    closed spec fn view(&self) -> Seq<T> {
        self.items@
    }
}

impl<T> PacketQueue<T> {
    /// The most items that the queue holds.
    pub closed spec fn spec_capacity(&self) -> usize {
        self.capacity
    }

    /// How many items were turned away so far; the count stops at the
    /// largest number it can hold.
    pub closed spec fn spec_dropped(&self) -> u64 {
        self.dropped
    }

    /// An empty queue for at most `capacity` items.
    pub fn new(capacity: usize) -> (r: Self)
        ensures
            r@ == Seq::<T>::empty(),
            r.spec_capacity() == capacity,
            r.spec_dropped() == 0,
    {
        PacketQueue { items: VecDeque::new(), capacity, dropped: 0 }
    }

    /// The most items that the queue holds.
    #[verifier::when_used_as_spec(spec_capacity)]
    pub fn capacity(&self) -> (r: usize)
        ensures
            r == self.spec_capacity(),
    {
        self.capacity
    }

    /// How many items were turned away so far.
    #[verifier::when_used_as_spec(spec_dropped)]
    pub fn dropped(&self) -> (r: u64)
        ensures
            r == self.spec_dropped(),
    {
        self.dropped
    }

    /// How many items wait in the queue.
    pub fn len(&self) -> (r: usize)
        ensures
            r == self@.len(),
    {
        self.items.len()
    }

    /// Whether no item waits in the queue.
    pub fn is_empty(&self) -> (r: bool)
        ensures
            r == (self@.len() == 0),
    {
        self.items.len() == 0
    }

    /// Puts `item` at the end of the queue where there is room for it.
    /// Where there is none the queue stays as it is, the item is dropped
    /// and the drop is counted.
    pub fn offer(&mut self, item: T) -> (accepted: bool)
        ensures
            accepted == (old(self)@.len() < old(self).capacity()),
            final(self).capacity() == old(self).capacity(),
            accepted ==> final(self)@ == old(self)@.push(item),
            accepted ==> final(self).dropped() == old(self).dropped(),
            !accepted ==> final(self)@ == old(self)@,
            !accepted && old(self).dropped() < u64::MAX ==> final(self).dropped() == old(self).dropped() + 1,
            !accepted && old(self).dropped() == u64::MAX ==> final(self).dropped() == u64::MAX,
            old(self)@.len() <= old(self).capacity() ==> final(self)@.len() <= final(self).capacity(),
    {
        if self.items.len() < self.capacity {
            self.items.push_back(item);
            true
        } else {
            if self.dropped < u64::MAX {
                self.dropped = self.dropped + 1;
            }
            false
        }
    }

    /// Takes the item at the front of the queue, if there is one.
    pub fn take(&mut self) -> (r: Option<T>)
        ensures
            final(self).capacity() == old(self).capacity(),
            final(self).dropped() == old(self).dropped(),
            match r {
                Some(item) => {
                    &&& old(self)@.len() > 0
                    &&& item == old(self)@[0]
                    &&& final(self)@ == old(self)@.subrange(1, old(self)@.len() as int)
                },
                None => old(self)@.len() == 0 && final(self)@ == old(self)@,
            },
    {
        self.items.pop_front()
    }
}

} // verus!

//! A bounded request queue for a stage that serves one call at a time.
//! Callers are held in arrival order up to the bound; an offer beyond it is
//! refused with a reported failure instead of growing the queue or dropping
//! the request.
use vstd::prelude::*;
use std::collections::VecDeque;

verus! {

/// The queue was full: the request was not admitted.
#[derive(Clone, Copy, PartialEq, Eq, Debug, Structural)]
pub struct QueueFull {
    pub capacity: usize,
}

/// Requests waiting for a stage, oldest first, at most `capacity` of them.
pub struct RequestQueue<T> {
    items: VecDeque<T>,
    capacity: usize,
}

impl<T> View for RequestQueue<T> {
    type V = Seq<T>;

    closed spec fn view(&self) -> Seq<T> {
        self.items@
    }
}

impl<T> RequestQueue<T> {
    pub closed spec fn capacity(&self) -> nat {
        self.capacity as nat
    }

    pub open spec fn wf(&self) -> bool {
        self@.len() <= self.capacity()
    }

    /// An empty queue that holds at most `capacity` requests.
    pub fn new(capacity: usize) -> (r: RequestQueue<T>)
        ensures
            r.wf(),
            r@ == Seq::<T>::empty(),
            r.capacity() == capacity,
    {
        RequestQueue { items: VecDeque::new(), capacity }
    }

    /// The number of waiting requests.
    pub fn len(&self) -> (r: usize)
        ensures
            r == self@.len(),
    {
        self.items.len()
    }

    /// Admits `item` at the back, or refuses it when the queue is full.
    pub fn offer(&mut self, item: T) -> (r: Result<(), QueueFull>)
        requires
            old(self).wf(),
        ensures
            final(self).wf(),
            final(self).capacity() == old(self).capacity(),
            old(self)@.len() < old(self).capacity() ==> r is Ok && final(self)@ == old(self)@.push(
                item,
            ),
            old(self)@.len() >= old(self).capacity() ==> r == Err::<(), QueueFull>(
                QueueFull { capacity: old(self).capacity() as usize },
            ) && final(self)@ == old(self)@,
    {
        if self.items.len() >= self.capacity {
            return Err(QueueFull { capacity: self.capacity });
        }
        self.items.push_back(item);
        Ok(())
    }

    /// Hands out the oldest waiting request, if any.
    pub fn take(&mut self) -> (r: Option<T>)
        requires
            old(self).wf(),
        ensures
            final(self).wf(),
            final(self).capacity() == old(self).capacity(),
            old(self)@.len() == 0 ==> r is None && final(self)@ == old(self)@,
            old(self)@.len() > 0 ==> r == Some(old(self)@[0]) && final(self)@ == old(self)@.drop_first(),
    {
        let r = self.items.pop_front();
        proof {
            if old(self)@.len() > 0 {
                assert(self.items@ =~= old(self)@.drop_first());
            }
        }
        r
    }
}

} // verus!

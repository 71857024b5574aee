//! Bounded first-in first-out queues. Pushing to a full queue or popping an
//! empty one would wait for another thread; through `&mut` no other thread
//! can act, so those waits never end and the blocking calls are only for a
//! queue that has room (or items). The `try_` calls answer at once.

use vstd::prelude::*;
use crate::error::Error;
use crate::pool::Pool;
use crate::status::{status_from_code, status_of_code, Status, APR_EAGAIN};
use crate::text::{push_decimal, spec_decimal};

verus! {

/// A bounded FIFO queue.
pub struct Queue<T> {
    items: Vec<T>,
    capacity: u32,
    terminated: bool,
}

impl<T> Queue<T> {
    /// The items, oldest first.
    pub closed spec fn spec_items(&self) -> Seq<T> {
        self.items@
    }

    /// How many items the queue holds at most.
    pub closed spec fn spec_capacity(&self) -> nat {
        self.capacity as nat
    }

    /// Whether the queue was terminated.
    pub closed spec fn spec_terminated(&self) -> bool {
        self.terminated
    }

    /// The queue's invariant: it never holds more than its capacity.
    pub open spec fn wf(&self) -> bool {
        self.spec_items().len() <= self.spec_capacity()
    }

    /// Create an empty queue that holds at most `capacity` items.
    pub fn new(capacity: u32, _pool: &Pool) -> (r: Result<Self, Error>)
        ensures
            r matches Ok(q) && q.wf() && q.spec_items() == Seq::<T>::empty() && q.spec_capacity()
                == capacity && !q.spec_terminated(),
    {
        Ok(Queue { items: Vec::new(), capacity, terminated: false })
    }

    /// Push an item. A terminated queue refuses it with end-of-file.
    pub fn push(&mut self, data: T) -> (r: Result<(), Error>)
        requires
            old(self).wf(),
            old(self).spec_terminated() || old(self).spec_items().len() < old(self).spec_capacity(),
        ensures
            final(self).wf(),
            final(self).spec_capacity() == old(self).spec_capacity(),
            final(self).spec_terminated() == old(self).spec_terminated(),
            old(self).spec_terminated() ==> (r matches Err(e) && e.spec_status() == Status::Eof)
                && final(self).spec_items() == old(self).spec_items(),
            !old(self).spec_terminated() ==> r is Ok && final(self).spec_items()
                == old(self).spec_items().push(data),
    {
        if self.terminated {
            return Err(Error::from_status(Status::Eof));
        }
        self.items.push(data);
        Ok(())
    }

    /// Push an item if there is room: a terminated queue answers
    /// end-of-file, a full one answers "try again".
    pub fn try_push(&mut self, data: T) -> (r: Result<(), Error>)
        requires
            old(self).wf(),
        ensures
            final(self).wf(),
            final(self).spec_capacity() == old(self).spec_capacity(),
            final(self).spec_terminated() == old(self).spec_terminated(),
            old(self).spec_terminated() ==> (r matches Err(e) && e.spec_status() == Status::Eof)
                && final(self).spec_items() == old(self).spec_items(),
            !old(self).spec_terminated() && old(self).spec_items().len() >= old(self).spec_capacity()
                ==> (r matches Err(e) && e.spec_status() == status_of_code(APR_EAGAIN))
                && final(self).spec_items() == old(self).spec_items(),
            !old(self).spec_terminated() && old(self).spec_items().len() < old(self).spec_capacity()
                ==> r is Ok && final(self).spec_items() == old(self).spec_items().push(data),
    {
        if self.terminated {
            return Err(Error::from_status(Status::Eof));
        }
        if self.items.len() >= self.capacity as usize {
            return Err(Error::from_status(status_from_code(APR_EAGAIN)));
        }
        self.items.push(data);
        Ok(())
    }

    /// Pop the oldest item. A terminated queue answers end-of-file.
    pub fn pop(&mut self) -> (r: Result<T, Error>)
        requires
            old(self).wf(),
            old(self).spec_terminated() || old(self).spec_items().len() > 0,
        ensures
            final(self).wf(),
            final(self).spec_capacity() == old(self).spec_capacity(),
            final(self).spec_terminated() == old(self).spec_terminated(),
            old(self).spec_terminated() ==> (r matches Err(e) && e.spec_status() == Status::Eof)
                && final(self).spec_items() == old(self).spec_items(),
            !old(self).spec_terminated() ==> r == Ok::<T, Error>(old(self).spec_items()[0])
                && final(self).spec_items() == old(self).spec_items().drop_first(),
    {
        if self.terminated {
            return Err(Error::from_status(Status::Eof));
        }
        let v = self.items.remove(0);
        Ok(v)
    }

    /// Pop the oldest item if there is one: a terminated queue answers
    /// end-of-file, an empty one answers "try again".
    pub fn try_pop(&mut self) -> (r: Result<T, Error>)
        requires
            old(self).wf(),
        ensures
            final(self).wf(),
            final(self).spec_capacity() == old(self).spec_capacity(),
            final(self).spec_terminated() == old(self).spec_terminated(),
            old(self).spec_terminated() ==> (r matches Err(e) && e.spec_status() == Status::Eof)
                && final(self).spec_items() == old(self).spec_items(),
            !old(self).spec_terminated() && old(self).spec_items().len() == 0 ==> (r matches Err(e)
                && e.spec_status() == status_of_code(APR_EAGAIN)) && final(self).spec_items()
                == old(self).spec_items(),
            !old(self).spec_terminated() && old(self).spec_items().len() > 0 ==> r == Ok::<T, Error>(
                old(self).spec_items()[0],
            ) && final(self).spec_items() == old(self).spec_items().drop_first(),
    {
        if self.terminated {
            return Err(Error::from_status(Status::Eof));
        }
        if self.items.len() == 0 {
            return Err(Error::from_status(status_from_code(APR_EAGAIN)));
        }
        let v = self.items.remove(0);
        Ok(v)
    }

    /// The number of items in the queue.
    pub fn size(&self) -> (r: u32)
        requires
            self.wf(),
        ensures
            r == self.spec_items().len(),
    {
        self.items.len() as u32
    }

    /// Whether the queue is empty.
    pub fn is_empty(&self) -> (r: bool)
        requires
            self.wf(),
        ensures
            r == (self.spec_items().len() == 0),
    {
        self.size() == 0
    }

    /// Wake every waiter; with no waiter this changes nothing.
    pub fn interrupt_all(&mut self) -> (r: Result<(), Error>)
        ensures
            r is Ok,
            final(self).spec_items() == old(self).spec_items(),
            final(self).spec_capacity() == old(self).spec_capacity(),
            final(self).spec_terminated() == old(self).spec_terminated(),
    {
        Ok(())
    }

    /// Terminate the queue: from now on pushes and pops answer end-of-file.
    pub fn terminate(&mut self) -> (r: Result<(), Error>)
        ensures
            r is Ok,
            final(self).spec_items() == old(self).spec_items(),
            final(self).spec_capacity() == old(self).spec_capacity(),
            final(self).spec_terminated(),
    {
        self.terminated = true;
        Ok(())
    }
}

/// A queue of references to values that live elsewhere.
pub struct TypedQueue<'a, T> {
    inner: Queue<&'a T>,
}

impl<'a, T> TypedQueue<'a, T> {
    /// The underlying queue.
    pub closed spec fn spec_queue(&self) -> Queue<&'a T> {
        self.inner
    }

    /// Create an empty queue that holds at most `capacity` references.
    pub fn new(capacity: u32, pool: &Pool) -> (r: Result<Self, Error>)
        ensures
            r matches Ok(q) && q.spec_queue().wf() && q.spec_queue().spec_items() == Seq::<&'a T>::empty()
                && q.spec_queue().spec_capacity() == capacity && !q.spec_queue().spec_terminated(),
    {
        Ok(TypedQueue { inner: Queue::new(capacity, pool)? })
    }

    /// Push a reference (see [`Queue::push`]).
    pub fn push_ref(&mut self, data: &'a T) -> (r: Result<(), Error>)
        requires
            old(self).spec_queue().wf(),
            old(self).spec_queue().spec_terminated() || old(self).spec_queue().spec_items().len()
                < old(self).spec_queue().spec_capacity(),
        ensures
            final(self).spec_queue().wf(),
            final(self).spec_queue().spec_capacity() == old(self).spec_queue().spec_capacity(),
            final(self).spec_queue().spec_terminated() == old(self).spec_queue().spec_terminated(),
            old(self).spec_queue().spec_terminated() ==> (r matches Err(e) && e.spec_status()
                == Status::Eof) && final(self).spec_queue().spec_items() == old(self).spec_queue().spec_items(),
            !old(self).spec_queue().spec_terminated() ==> r is Ok && final(self).spec_queue().spec_items()
                == old(self).spec_queue().spec_items().push(data),
    {
        self.inner.push(data)
    }

    /// Push a reference if there is room (see [`Queue::try_push`]).
    pub fn try_push_ref(&mut self, data: &'a T) -> (r: Result<(), Error>)
        requires
            old(self).spec_queue().wf(),
        ensures
            final(self).spec_queue().wf(),
            final(self).spec_queue().spec_capacity() == old(self).spec_queue().spec_capacity(),
            final(self).spec_queue().spec_terminated() == old(self).spec_queue().spec_terminated(),
            old(self).spec_queue().spec_terminated() ==> (r matches Err(e) && e.spec_status()
                == Status::Eof) && final(self).spec_queue().spec_items() == old(self).spec_queue().spec_items(),
            !old(self).spec_queue().spec_terminated() && old(self).spec_queue().spec_items().len()
                >= old(self).spec_queue().spec_capacity() ==> (r matches Err(e) && e.spec_status()
                == status_of_code(APR_EAGAIN)) && final(self).spec_queue().spec_items()
                == old(self).spec_queue().spec_items(),
            !old(self).spec_queue().spec_terminated() && old(self).spec_queue().spec_items().len()
                < old(self).spec_queue().spec_capacity() ==> r is Ok && final(self).spec_queue().spec_items()
                == old(self).spec_queue().spec_items().push(data),
    {
        self.inner.try_push(data)
    }

    /// Pop the oldest reference (see [`Queue::pop`]).
    pub fn pop_ref(&mut self) -> (r: Result<&'a T, Error>)
        requires
            old(self).spec_queue().wf(),
            old(self).spec_queue().spec_terminated() || old(self).spec_queue().spec_items().len() > 0,
        ensures
            final(self).spec_queue().wf(),
            final(self).spec_queue().spec_capacity() == old(self).spec_queue().spec_capacity(),
            final(self).spec_queue().spec_terminated() == old(self).spec_queue().spec_terminated(),
            old(self).spec_queue().spec_terminated() ==> (r matches Err(e) && e.spec_status()
                == Status::Eof) && final(self).spec_queue().spec_items() == old(self).spec_queue().spec_items(),
            !old(self).spec_queue().spec_terminated() ==> r == Ok::<&'a T, Error>(
                old(self).spec_queue().spec_items()[0],
            ) && final(self).spec_queue().spec_items() == old(self).spec_queue().spec_items().drop_first(),
    {
        self.inner.pop()
    }

    /// Pop the oldest reference if there is one (see [`Queue::try_pop`]).
    pub fn try_pop_ref(&mut self) -> (r: Result<&'a T, Error>)
        requires
            old(self).spec_queue().wf(),
        ensures
            final(self).spec_queue().wf(),
            final(self).spec_queue().spec_capacity() == old(self).spec_queue().spec_capacity(),
            final(self).spec_queue().spec_terminated() == old(self).spec_queue().spec_terminated(),
            old(self).spec_queue().spec_terminated() ==> (r matches Err(e) && e.spec_status()
                == Status::Eof) && final(self).spec_queue().spec_items() == old(self).spec_queue().spec_items(),
            !old(self).spec_queue().spec_terminated() && old(self).spec_queue().spec_items().len() == 0
                ==> (r matches Err(e) && e.spec_status() == status_of_code(APR_EAGAIN))
                && final(self).spec_queue().spec_items() == old(self).spec_queue().spec_items(),
            !old(self).spec_queue().spec_terminated() && old(self).spec_queue().spec_items().len() > 0
                ==> r == Ok::<&'a T, Error>(old(self).spec_queue().spec_items()[0])
                && final(self).spec_queue().spec_items() == old(self).spec_queue().spec_items().drop_first(),
    {
        self.inner.try_pop()
    }

    /// The number of references in the queue.
    pub fn size(&self) -> (r: u32)
        requires
            self.spec_queue().wf(),
        ensures
            r == self.spec_queue().spec_items().len(),
    {
        self.inner.size()
    }

    /// Whether the queue is empty.
    pub fn is_empty(&self) -> (r: bool)
        requires
            self.spec_queue().wf(),
        ensures
            r == (self.spec_queue().spec_items().len() == 0),
    {
        self.inner.is_empty()
    }

    /// Wake every waiter (see [`Queue::interrupt_all`]).
    pub fn interrupt_all(&mut self) -> (r: Result<(), Error>)
        ensures
            r is Ok,
            final(self).spec_queue().spec_items() == old(self).spec_queue().spec_items(),
            final(self).spec_queue().spec_capacity() == old(self).spec_queue().spec_capacity(),
            final(self).spec_queue().spec_terminated() == old(self).spec_queue().spec_terminated(),
    {
        self.inner.interrupt_all()
    }

    /// Terminate the queue (see [`Queue::terminate`]).
    pub fn terminate(&mut self) -> (r: Result<(), Error>)
        ensures
            r is Ok,
            final(self).spec_queue().spec_items() == old(self).spec_queue().spec_items(),
            final(self).spec_queue().spec_capacity() == old(self).spec_queue().spec_capacity(),
            final(self).spec_queue().spec_terminated(),
    {
        self.inner.terminate()
    }
}

/// A queue that owns the values it holds.
pub struct BoxedQueue<T> {
    inner: Queue<T>,
}

impl<T> BoxedQueue<T> {
    /// The underlying queue.
    pub closed spec fn spec_queue(&self) -> Queue<T> {
        self.inner
    }

    /// Create an empty queue that holds at most `capacity` values.
    pub fn new(capacity: u32, pool: &Pool) -> (r: Result<Self, Error>)
        ensures
            r matches Ok(q) && q.spec_queue().wf() && q.spec_queue().spec_items() == Seq::<T>::empty()
                && q.spec_queue().spec_capacity() == capacity && !q.spec_queue().spec_terminated(),
    {
        Ok(BoxedQueue { inner: Queue::new(capacity, pool)? })
    }

    /// Push a value (see [`Queue::push`]).
    pub fn push(&mut self, value: T) -> (r: Result<(), Error>)
        requires
            old(self).spec_queue().wf(),
            old(self).spec_queue().spec_terminated() || old(self).spec_queue().spec_items().len()
                < old(self).spec_queue().spec_capacity(),
        ensures
            final(self).spec_queue().wf(),
            final(self).spec_queue().spec_capacity() == old(self).spec_queue().spec_capacity(),
            final(self).spec_queue().spec_terminated() == old(self).spec_queue().spec_terminated(),
            old(self).spec_queue().spec_terminated() ==> (r matches Err(e) && e.spec_status()
                == Status::Eof) && final(self).spec_queue().spec_items() == old(self).spec_queue().spec_items(),
            !old(self).spec_queue().spec_terminated() ==> r is Ok && final(self).spec_queue().spec_items()
                == old(self).spec_queue().spec_items().push(value),
    {
        self.inner.push(value)
    }

    /// Push a value if there is room (see [`Queue::try_push`]); a refused
    /// value is dropped.
    pub fn try_push(&mut self, value: T) -> (r: Result<(), Error>)
        requires
            old(self).spec_queue().wf(),
        ensures
            final(self).spec_queue().wf(),
            final(self).spec_queue().spec_capacity() == old(self).spec_queue().spec_capacity(),
            final(self).spec_queue().spec_terminated() == old(self).spec_queue().spec_terminated(),
            old(self).spec_queue().spec_terminated() ==> (r matches Err(e) && e.spec_status()
                == Status::Eof) && final(self).spec_queue().spec_items() == old(self).spec_queue().spec_items(),
            !old(self).spec_queue().spec_terminated() && old(self).spec_queue().spec_items().len()
                >= old(self).spec_queue().spec_capacity() ==> (r matches Err(e) && e.spec_status()
                == status_of_code(APR_EAGAIN)) && final(self).spec_queue().spec_items()
                == old(self).spec_queue().spec_items(),
            !old(self).spec_queue().spec_terminated() && old(self).spec_queue().spec_items().len()
                < old(self).spec_queue().spec_capacity() ==> r is Ok && final(self).spec_queue().spec_items()
                == old(self).spec_queue().spec_items().push(value),
    {
        self.inner.try_push(value)
    }

    /// Pop the oldest value (see [`Queue::pop`]).
    pub fn pop(&mut self) -> (r: Result<T, Error>)
        requires
            old(self).spec_queue().wf(),
            old(self).spec_queue().spec_terminated() || old(self).spec_queue().spec_items().len() > 0,
        ensures
            final(self).spec_queue().wf(),
            final(self).spec_queue().spec_capacity() == old(self).spec_queue().spec_capacity(),
            final(self).spec_queue().spec_terminated() == old(self).spec_queue().spec_terminated(),
            old(self).spec_queue().spec_terminated() ==> (r matches Err(e) && e.spec_status()
                == Status::Eof) && final(self).spec_queue().spec_items() == old(self).spec_queue().spec_items(),
            !old(self).spec_queue().spec_terminated() ==> r == Ok::<T, Error>(
                old(self).spec_queue().spec_items()[0],
            ) && final(self).spec_queue().spec_items() == old(self).spec_queue().spec_items().drop_first(),
    {
        self.inner.pop()
    }

    /// Pop the oldest value if there is one (see [`Queue::try_pop`]).
    pub fn try_pop(&mut self) -> (r: Result<T, Error>)
        requires
            old(self).spec_queue().wf(),
        ensures
            final(self).spec_queue().wf(),
            final(self).spec_queue().spec_capacity() == old(self).spec_queue().spec_capacity(),
            final(self).spec_queue().spec_terminated() == old(self).spec_queue().spec_terminated(),
            old(self).spec_queue().spec_terminated() ==> (r matches Err(e) && e.spec_status()
                == Status::Eof) && final(self).spec_queue().spec_items() == old(self).spec_queue().spec_items(),
            !old(self).spec_queue().spec_terminated() && old(self).spec_queue().spec_items().len() == 0
                ==> (r matches Err(e) && e.spec_status() == status_of_code(APR_EAGAIN))
                && final(self).spec_queue().spec_items() == old(self).spec_queue().spec_items(),
            !old(self).spec_queue().spec_terminated() && old(self).spec_queue().spec_items().len() > 0
                ==> r == Ok::<T, Error>(old(self).spec_queue().spec_items()[0])
                && final(self).spec_queue().spec_items() == old(self).spec_queue().spec_items().drop_first(),
    {
        self.inner.try_pop()
    }

    /// The number of values in the queue.
    pub fn size(&self) -> (r: u32)
        requires
            self.spec_queue().wf(),
        ensures
            r == self.spec_queue().spec_items().len(),
    {
        self.inner.size()
    }

    /// The queue as `{:?}` writes it: `BoxedQueue { size: n }`.
    pub fn to_debug_string(&self) -> (r: String)
        requires
            self.spec_queue().wf(),
        ensures
            r@ == seq!['B', 'o', 'x', 'e', 'd', 'Q', 'u', 'e', 'u', 'e', ' ', '{', ' ', 's', 'i', 'z', 'e', ':', ' ']
                + spec_decimal(self.spec_queue().spec_items().len()) + seq![' ', '}'],
    {
        let n = self.size();
        let mut s = String::new();
        s.append("BoxedQueue { size: ");
        push_decimal(&mut s, n as u64);
        s.append(" }");
        proof {
            reveal_strlit("BoxedQueue { size: ");
            reveal_strlit(" }");
        }
        assert(s@ =~= seq!['B', 'o', 'x', 'e', 'd', 'Q', 'u', 'e', 'u', 'e', ' ', '{', ' ', 's', 'i', 'z', 'e', ':', ' ']
            + spec_decimal(self.spec_queue().spec_items().len()) + seq![' ', '}']);
        s
    }

    /// Whether the queue is empty.
    pub fn is_empty(&self) -> (r: bool)
        requires
            self.spec_queue().wf(),
        ensures
            r == (self.spec_queue().spec_items().len() == 0),
    {
        self.inner.is_empty()
    }

    /// Wake every waiter (see [`Queue::interrupt_all`]).
    pub fn interrupt_all(&mut self) -> (r: Result<(), Error>)
        ensures
            r is Ok,
            final(self).spec_queue().spec_items() == old(self).spec_queue().spec_items(),
            final(self).spec_queue().spec_capacity() == old(self).spec_queue().spec_capacity(),
            final(self).spec_queue().spec_terminated() == old(self).spec_queue().spec_terminated(),
    {
        self.inner.interrupt_all()
    }

    /// Terminate the queue (see [`Queue::terminate`]).
    pub fn terminate(&mut self) -> (r: Result<(), Error>)
        ensures
            r is Ok,
            final(self).spec_queue().spec_items() == old(self).spec_queue().spec_items(),
            final(self).spec_queue().spec_capacity() == old(self).spec_queue().spec_capacity(),
            final(self).spec_queue().spec_terminated(),
    {
        self.inner.terminate()
    }
}

/// The queue is first-in first-out: pushing to a non-empty queue leaves the
/// oldest item in front, pushing to an empty one puts the new item in
/// front, and popping then pushing equals pushing then popping.
pub proof fn law_queue_fifo<T>(items: Seq<T>, x: T)
    ensures
        items.len() > 0 ==> items.push(x)[0] == items[0],
        items.len() == 0 ==> items.push(x)[0] == x,
        items.len() > 0 ==> items.push(x).drop_first() == items.drop_first().push(x),
{
    if items.len() > 0 {
        assert(items.push(x).drop_first() =~= items.drop_first().push(x));
    }
}

} // verus!

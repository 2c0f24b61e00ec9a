//! Bounded single-producer single-consumer byte FIFO feeding the GPS task.
//! The producer (the serial receive interrupt) drops bytes silently when the
//! queue is full; the consumer drains it byte by byte in FIFO order.

use std::collections::VecDeque;
use vstd::prelude::*;

verus! {

/// A bounded byte FIFO.  Enqueueing on a full queue drops the byte.
pub struct ByteQueue {
    buf: VecDeque<u8>,
    cap: usize,
}

impl ByteQueue {
    /// The queued bytes, oldest first.
    pub closed spec fn contents(self) -> Seq<u8> {
        self.buf@
    }

    /// The fixed capacity the queue was created with.
    pub closed spec fn capacity_spec(self) -> int {
        self.cap as int
    }

    /// The queue never holds more than its capacity.
    pub closed spec fn wf(self) -> bool {
        self.buf@.len() <= self.cap
    }

    pub fn new(capacity: usize) -> (r: Self)
        ensures
            r.wf(),
            r.contents() == Seq::<u8>::empty(),
            r.capacity_spec() == capacity,
    {
        Self { buf: VecDeque::new(), cap: capacity }
    }

    pub fn len(&self) -> (r: usize)
        ensures
            r == self.contents().len(),
    {
        self.buf.len()
    }

    pub fn is_empty(&self) -> (r: bool)
        ensures
            r == (self.contents().len() == 0),
    {
        self.buf.len() == 0
    }

    /// Enqueue one byte; a full queue drops it silently and reports `false`.
    pub fn enqueue(&mut self, b: u8) -> (r: bool)
        requires
            old(self).wf(),
        ensures
            final(self).wf(),
            final(self).capacity_spec() == old(self).capacity_spec(),
            old(self).contents().len() < old(self).capacity_spec() ==> r && final(self).contents()
                == old(self).contents().push(b),
            old(self).contents().len() >= old(self).capacity_spec() ==> !r && *final(self)
                == *old(self),
    {
        if self.buf.len() < self.cap {
            self.buf.push_back(b);
            true
        } else {
            false
        }
    }

    /// Dequeue the oldest byte, if any.
    pub fn dequeue(&mut self) -> (r: Option<u8>)
        requires
            old(self).wf(),
        ensures
            final(self).wf(),
            final(self).capacity_spec() == old(self).capacity_spec(),
            old(self).contents().len() == 0 ==> r is None && final(self).contents() == old(
                self,
            ).contents(),
            old(self).contents().len() > 0 ==> {
                &&& r == Some(old(self).contents().first())
                &&& final(self).contents() == old(self).contents().drop_first()
            },
    {
        let r = self.buf.pop_front();
        proof {
            if old(self).buf@.len() > 0 {
                assert(self.buf@ =~= old(self).buf@.drop_first());
            }
        }
        r
    }
}

} // verus!

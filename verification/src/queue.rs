//! Bounded-mailbox semantics of the outgoing frame queue.
//!
//! Producers append encoded frames at the back; the link owner task drains
//! from the front, so frames are written in exactly the order they were
//! enqueued. The queue is bounded: a full queue refuses the frame and hands
//! it back untouched — the producer suspends and retries rather than the
//! queue dropping anything. The process-level channel that carries frames
//! between tasks is the async runtime's and lives with the caller; this
//! module holds the mailbox policy it must follow.

use vstd::prelude::*;

verus! {

/// A bounded FIFO of encoded frames, front at index zero.
pub struct CommandQueue {
    capacity: usize,
    items: Vec<Vec<u8>>,
}

impl CommandQueue {
    /// The frames currently queued, oldest first.
    pub closed spec fn model(&self) -> Seq<Seq<u8>> {
        self.items.deep_view()
    }

    /// The most frames the queue will hold at once.
    pub closed spec fn capacity(&self) -> nat {
        self.capacity as nat
    }

    /// The queue never exceeds its bound.
    pub closed spec fn inv(&self) -> bool {
        &&& self.capacity >= 1
        &&& self.items@.len() <= self.capacity
    }

    /// An empty queue holding up to `capacity` frames.
    pub fn new(capacity: usize) -> (q: CommandQueue)
        requires
            capacity >= 1,
        ensures
            q.inv(),
            q.capacity() == capacity,
            q.model() == Seq::<Seq<u8>>::empty(),
    {
        let q = CommandQueue { capacity, items: Vec::new() };
        proof {
            assert(q.model() =~= Seq::<Seq<u8>>::empty());
        }
        q
    }

    /// How many frames are queued right now.
    pub fn len(&self) -> (n: usize)
        ensures
            n == self.model().len(),
    {
        self.items.len()
    }

    /// Append a frame at the back, or hand it back untouched when the queue
    /// is full — the frame is never dropped, the producer must wait.
    pub fn try_enqueue(&mut self, frame: Vec<u8>) -> (r: Result<(), Vec<u8>>)
        requires
            old(self).inv(),
        ensures
            final(self).inv(),
            final(self).capacity() == old(self).capacity(),
            old(self).model().len() < old(self).capacity() ==> ({
                &&& r is Ok
                &&& final(self).model() == old(self).model().push(frame@)
            }),
            old(self).model().len() >= old(self).capacity() ==> ({
                &&& r matches Err(returned) && returned@ == frame@
                &&& final(self).model() == old(self).model()
            }),
    {
        if self.items.len() >= self.capacity {
            return Err(frame);
        }
        let ghost old_dv = self.items.deep_view();
        let ghost fv = frame.deep_view();
        self.items.push(frame);
        proof {
            assert(self.items.deep_view() =~~= old_dv.push(fv));
            assert(fv =~= frame@);
        }
        Ok(())
    }

    /// Take the oldest frame, or nothing when the queue is empty.
    pub fn dequeue(&mut self) -> (r: Option<Vec<u8>>)
        requires
            old(self).inv(),
        ensures
            final(self).inv(),
            final(self).capacity() == old(self).capacity(),
            old(self).model().len() == 0 ==> ({
                &&& r is None
                &&& final(self).model() == old(self).model()
            }),
            old(self).model().len() > 0 ==> ({
                &&& r matches Some(front) && front@ == old(self).model()[0]
                &&& final(self).model() == old(self).model().skip(1)
            }),
    {
        if self.items.len() == 0 {
            return None;
        }
        let ghost old_dv = self.items.deep_view();
        let front = self.items.remove(0);
        proof {
            assert(self.items.deep_view() =~~= old_dv.skip(1));
            assert(front.deep_view() =~= front@);
        }
        Some(front)
    }
}

} // verus!

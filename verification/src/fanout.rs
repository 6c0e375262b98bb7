//! Delivery policy of the feedback fan-out channel.
//!
//! Every decoded payload is published once and every subscriber owns an
//! independent cursor over the published stream: a subscriber sees every
//! item published from the moment of its subscription forward, a late
//! subscriber misses what came before it, and a subscriber that falls more
//! than the channel's bounded capacity behind silently skips the oldest
//! items it missed. This module holds that policy as a verified structure;
//! the process-level channel that carries items between tasks is the async
//! runtime's and lives with the caller.

use vstd::prelude::*;

verus! {

/// Which position of the published stream a cursor at `next` reads, when
/// `count` items were published and only the last `buffered` are still
/// held: a cursor that lagged past the buffered window skips forward to
/// the oldest item still held.
pub open spec fn read_index(count: nat, buffered: nat, next: nat) -> nat
    recommends
        buffered <= count,
        next < count,
{
    if next + buffered >= count {
        next
    } else {
        (count - buffered) as nat
    }
}

/// An independent cursor over the published stream.
#[derive(Debug)]
pub struct Subscription {
    next: usize,
}

impl Subscription {
    /// The position of the next item this subscriber would read.
    pub closed spec fn position(&self) -> nat {
        self.next as nat
    }
}

/// The bounded fan-out buffer: the full published stream as its model, of
/// which only the newest `capacity` items are still held.
pub struct FeedbackFanout {
    capacity: usize,
    buffer: Vec<Vec<u8>>,
    count: usize,
    history: Ghost<Seq<Seq<u8>>>,
}

impl FeedbackFanout {
    /// How many of the newest items are held for lagging subscribers.
    pub closed spec fn capacity(&self) -> nat {
        self.capacity as nat
    }

    /// Every payload ever published, in publication order.
    pub closed spec fn history(&self) -> Seq<Seq<u8>> {
        self.history@
    }

    /// How many payloads were ever published.
    pub open spec fn count(&self) -> nat {
        self.history().len()
    }

    /// How many of the newest payloads are still held.
    pub closed spec fn buffered(&self) -> nat {
        self.buffer@.len()
    }

    /// The buffer holds exactly the newest published payloads, at most
    /// `capacity` and never more than were published.
    pub closed spec fn inv(&self) -> bool {
        &&& self.capacity >= 1
        &&& self.count == self.history@.len()
        &&& self.buffer@.len() <= self.capacity
        &&& self.buffer@.len() <= self.count
        &&& self.count > 0 ==> self.buffer@.len() >= 1
        &&& self.buffer.deep_view() == self.history@.skip(
            self.count - self.buffer@.len(),
        )
    }

    /// An empty fan-out buffer holding up to `capacity` items.
    pub fn new(capacity: usize) -> (chan: FeedbackFanout)
        requires
            capacity >= 1,
        ensures
            chan.inv(),
            chan.capacity() == capacity,
            chan.count() == 0,
            chan.buffered() == 0,
    {
        let chan = FeedbackFanout {
            capacity,
            buffer: Vec::new(),
            count: 0,
            history: Ghost(Seq::empty()),
        };
        proof {
            assert(chan.buffer.deep_view() =~= chan.history@.skip(0));
        }
        chan
    }

    /// A new independent cursor: it will see everything published from this
    /// moment forward and nothing published before.
    pub fn subscribe(&self) -> (sub: Subscription)
        requires
            self.inv(),
        ensures
            sub.position() == self.count(),
    {
        Subscription { next: self.count }
    }

    /// Publish one payload to every subscriber, evicting the oldest held
    /// item if the buffer is full.
    pub fn publish(&mut self, payload: Vec<u8>)
        requires
            old(self).inv(),
            old(self).count() < usize::MAX,
        ensures
            final(self).inv(),
            final(self).capacity() == old(self).capacity(),
            final(self).history() == old(self).history().push(payload@),
            final(self).buffered() == (if old(self).buffered() == old(self).capacity() {
                old(self).capacity()
            } else {
                old(self).buffered() + 1
            }),
    {
        let ghost pv = payload@;
        let ghost old_dv = self.buffer.deep_view();
        let ghost old_hist = self.history@;
        let ghost old_count = self.count as nat;
        let ghost old_len = self.buffer@.len() as nat;
        if self.buffer.len() == self.capacity {
            self.buffer.remove(0);
            proof {
                assert(self.buffer.deep_view() =~= old_dv.skip(1));
            }
        }
        let ghost mid_dv = self.buffer.deep_view();
        self.buffer.push(payload);
        self.count = self.count + 1;
        self.history = Ghost(old_hist.push(pv));
        proof {
            assert(self.buffer.deep_view() =~~= mid_dv.push(pv));
            assert(self.history@.skip(self.count - self.buffer@.len())
                =~~= self.buffer.deep_view());
        }
    }

    /// Read the next item for this subscriber, or nothing when it has seen
    /// everything published so far. A cursor that lagged past the buffered
    /// window skips the oldest missed items and reads the oldest item still
    /// held. The channel itself is untouched: other cursors are independent.
    pub fn recv(&self, sub: &mut Subscription) -> (r: Option<Vec<u8>>)
        requires
            self.inv(),
        ensures
            old(sub).position() >= self.count() ==> ({
                &&& r is None
                &&& final(sub).position() == old(sub).position()
            }),
            old(sub).position() < self.count() ==> ({
                let idx = read_index(self.count(), self.buffered(), old(sub).position());
                &&& r matches Some(p) && p@ == self.history()[idx as int]
                &&& final(sub).position() == idx + 1
            }),
    {
        if sub.next >= self.count {
            return None;
        }
        let start = self.count - self.buffer.len();
        if sub.next < start {
            sub.next = start;
        }
        let offset = sub.next - start;
        proof {
            assert(offset < self.buffer@.len());
            assert(self.history@.skip(start as int)[offset as int] == self.history@[sub.next as int]);
            assert(self.buffer.deep_view()[offset as int] == self.history@[sub.next as int]);
        }
        let item = vec_u8_clone(&self.buffer[offset]);
        sub.next = sub.next + 1;
        Some(item)
    }
}

/// Copy one payload out of the buffer.
fn vec_u8_clone(v: &Vec<u8>) -> (r: Vec<u8>)
    ensures
        r@ == v@,
{
    let mut r: Vec<u8> = Vec::new();
    let mut i: usize = 0;
    while i < v.len()
        invariant
            i <= v@.len(),
            r@ =~= v@.take(i as int),
        decreases v@.len() - i,
    {
        r.push(v[i]);
        proof {
            assert(v@.take(i + 1 as int) =~= v@.take(i as int).push(v@[i as int]));
        }
        i = i + 1;
    }
    proof {
        assert(v@.take(v@.len() as int) =~= v@);
    }
    r
}

/// Fan-out independence: a subscriber that stood at the end of the stream
/// when an item was published reads exactly that item — and since reading
/// never touches the channel, every such subscriber does, independently —
/// while a subscriber created after the publish stands past it and reads
/// nothing until something newer arrives.
pub proof fn lemma_fanout_independence(history: Seq<Seq<u8>>, buffered: nat)
    requires
        history.len() >= 1,
        1 <= buffered <= history.len(),
    ensures
        read_index(history.len(), buffered, (history.len() - 1) as nat) == history.len() - 1,
        history[read_index(history.len(), buffered, (history.len() - 1) as nat) as int]
            == history.last(),
{
}

} // verus!

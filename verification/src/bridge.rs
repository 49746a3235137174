//! The bounded bridge between the asynchronous producer and the
//! synchronous consumer: a fixed-capacity first-in first-out queue. A send
//! on a full queue is refused, which is what suspends the producer until
//! capacity frees; a send after the receiving side is gone is refused for
//! good, which is what makes the producer stop fetching.
//!
//! This type is the verified model of the bridge's discipline. The live
//! bridge of the embedding program is the standard library's synchronous
//! bounded channel, whose blocking behaviour no verifier here can see;
//! what is proved of this model is the capacity bound and the order and
//! fate of every record offered.
use vstd::prelude::*;

verus! {

/// What one attempted send came back with.
#[derive(PartialEq, Eq)]
pub enum SendOutcome {
    Accepted,
    Full,
    Disconnected,
}

/// A fixed-capacity queue from one producer to one consumer. The number of
/// buffered records never exceeds the capacity it was created with: that
/// is the backpressure bound.
pub struct BoundedChannel<T> {
    items: Vec<T>,
    capacity: usize,
    receiver_live: bool,
}

impl<T> BoundedChannel<T> {
    /// The buffered items, oldest first.
    pub closed spec fn buffered(&self) -> Seq<T> {
        self.items@
    }

    pub closed spec fn cap(&self) -> nat {
        self.capacity as nat
    }

    pub closed spec fn live(&self) -> bool {
        self.receiver_live
    }

    /// The backpressure invariant: never more buffered than the capacity.
    pub open spec fn wf(&self) -> bool {
        self.buffered().len() <= self.cap() && self.cap() >= 1
    }

    pub fn new(capacity: usize) -> (r: Self)
        requires
            capacity >= 1,
        ensures
            r.wf(),
            r.buffered() == Seq::<T>::empty(),
            r.cap() == capacity,
            r.live(),
    {
        BoundedChannel { items: Vec::new(), capacity, receiver_live: true }
    }

    pub fn len(&self) -> (r: usize)
        ensures
            r == self.buffered().len(),
    {
        self.items.len()
    }

    /// Offers one record to the consumer. Refused with `Full` when the
    /// queue is at capacity (the producer then waits and offers the same
    /// record again: backpressure), and with `Disconnected` once the
    /// receiving side is gone (the producer then stops for good).
    pub fn try_send(&mut self, x: T) -> (r: SendOutcome)
        requires
            old(self).wf(),
        ensures
            final(self).wf(),
            final(self).cap() == old(self).cap(),
            final(self).live() == old(self).live(),
            !old(self).live() ==> r == SendOutcome::Disconnected
                && final(self).buffered() == old(self).buffered(),
            old(self).live() && old(self).buffered().len() == old(self).cap() ==> r
                == SendOutcome::Full && final(self).buffered() == old(self).buffered(),
            old(self).live() && old(self).buffered().len() < old(self).cap() ==> r
                == SendOutcome::Accepted && final(self).buffered() == old(self).buffered().push(x),
            final(self).buffered().len() <= final(self).cap(),
    {
        if !self.receiver_live {
            SendOutcome::Disconnected
        } else if self.items.len() >= self.capacity {
            SendOutcome::Full
        } else {
            self.items.push(x);
            SendOutcome::Accepted
        }
    }

    /// Takes the oldest buffered record, if any: first in, first out.
    pub fn recv(&mut self) -> (r: Option<T>)
        requires
            old(self).wf(),
        ensures
            final(self).wf(),
            final(self).cap() == old(self).cap(),
            final(self).live() == old(self).live(),
            old(self).buffered().len() == 0 ==> r is None
                && final(self).buffered() == old(self).buffered(),
            old(self).buffered().len() > 0 ==> r == Option::Some(old(self).buffered()[0])
                && final(self).buffered() == old(self).buffered().drop_first(),
    {
        if self.items.len() == 0 {
            None
        } else {
            let x = self.items.remove(0);
            proof {
                assert(self.items@ =~= old(self).items@.drop_first());
            }
            Some(x)
        }
    }

    /// The consumer is gone: what it never drained is dropped, and every
    /// later send is refused.
    pub fn close(&mut self)
        requires
            old(self).wf(),
        ensures
            final(self).wf(),
            final(self).cap() == old(self).cap(),
            !final(self).live(),
            final(self).buffered().len() == 0,
    {
        self.receiver_live = false;
        self.items = Vec::new();
    }
}

} // verus!

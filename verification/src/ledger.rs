//! A buffer that keeps account of what passes through it.

use vstd::prelude::*;

use crate::buffer::Buffer;

verus! {

/// A buffer together with the history of the queue that it serves.
///
/// The history is a ghost: it costs nothing at run time.
pub struct Ledger<T> {
    buffer: Buffer<T>,
    history: Ghost<crate::model::History<T>>,
}

impl<T> Ledger<T> {
    /// The invariant: the buffer is in order, and holds what its history says. In particular the
    /// values that came out of it are those that went in, in the same order.
    pub closed spec fn wf(&self) -> bool {
        &&& self.buffer.wf()
        &&& self.history@.valid(self.buffer.spec_capacity())
        &&& self.buffer@ == self.history@.queued()
    }

    /// The number of values that the queue takes before it is full.
    pub closed spec fn spec_capacity(&self) -> nat {
        self.buffer.spec_capacity()
    }

    /// What has passed through the queue.
    pub closed spec fn history(&self) -> crate::model::History<T> {
        self.history@
    }

    /// The values that were destroyed at the end, in the order in which that happened.
    pub closed spec fn destroyed(&self) -> Seq<T> {
        self.buffer.destroyed()
    }

    /// The invariant makes the history one that a queue of this capacity can have.
    pub proof fn lemma_history_valid(&self)
        requires
            self.wf(),
        ensures
            self.history().valid(self.spec_capacity()),
    {
    }

    /// Creates the ledger of an empty queue of `capacity` values.
    pub fn new(capacity: usize) -> (ledger: Self)
        requires
            crate::memory::fits::<T>(capacity as int),
        ensures
            ledger.wf(),
            ledger.spec_capacity() == capacity,
            ledger.history() == crate::model::History::<T>::empty(),
            ledger.destroyed() == Seq::<T>::empty(),
    {
        let buffer = Buffer::new(capacity);
        let ledger = Ledger { buffer, history: Ghost(crate::model::History::empty()) };
        proof {
            assert(ledger.history@.queued() =~= Seq::<T>::empty());
        }
        ledger
    }

    /// Offers a value to the queue.
    pub fn try_push(&mut self, v: T) -> (r: Option<T>)
        requires
            old(self).wf(),
        ensures
            final(self).wf(),
            final(self).spec_capacity() == old(self).spec_capacity(),
            final(self).destroyed() == old(self).destroyed(),
            r == crate::model::push_reply(
                old(self).history().queued(),
                old(self).spec_capacity(),
                v,
            ),
            final(self).history() == old(self).history().push(old(self).spec_capacity(), v),
    {
        let r = self.buffer.try_push(v);
        proof {
            let before = self.history@;
            before.lemma_push(self.buffer.spec_capacity(), v);
            self.history@ = before.push(self.buffer.spec_capacity(), v);
        }
        r
    }

    /// Asks the queue for its next value.
    pub fn try_pop(&mut self) -> (r: Option<T>)
        requires
            old(self).wf(),
        ensures
            final(self).wf(),
            final(self).spec_capacity() == old(self).spec_capacity(),
            final(self).destroyed() == old(self).destroyed(),
            r == crate::model::pop_reply(old(self).history().queued()),
            final(self).history() == old(self).history().pop(),
        opens_invariants none
        no_unwind
    {
        let r = self.buffer.try_pop();
        proof {
            let before = self.history@;
            before.lemma_pop(self.buffer.spec_capacity());
            self.history@ = before.pop();
        }
        r
    }

    /// Takes out what is left in the queue, oldest first, and destroys each value as it comes.
    ///
    /// The result is a ghost: the values that were destroyed, in that order. Afterwards all that
    /// the queue ever took in has gone out of it, once.
    pub fn drain(&mut self) -> (destroyed: Ghost<Seq<T>>)
        requires
            old(self).wf(),
        ensures
            final(self).wf(),
            final(self).spec_capacity() == old(self).spec_capacity(),
            destroyed@ == old(self).history().queued(),
            final(self).destroyed() == old(self).destroyed() + old(self).history().queued(),
            final(self).history() == old(self).history().drain(),
            final(self).history().accepted == old(self).history().accepted,
            final(self).history().taken == old(self).history().accepted,
        opens_invariants none
        no_unwind
    {
        let destroyed = self.buffer.drain();
        proof {
            let before = self.history@;
            before.lemma_drain(self.buffer.spec_capacity());
            self.history@ = before.drain();
        }
        destroyed
    }

    /// Returns the number of values that the queue takes before it is full.
    pub fn capacity(&self) -> (n: usize)
        ensures
            n == self.spec_capacity(),
    {
        self.buffer.capacity()
    }

    /// Returns the number of values in the queue.
    pub fn size(&self) -> (n: usize)
        requires
            self.wf(),
        ensures
            n == self.history().queued().len(),
            n <= self.spec_capacity(),
    {
        self.buffer.size()
    }

    /// Returns the number of values that can be pushed before the queue is full.
    pub fn free_space(&self) -> (n: usize)
        requires
            self.wf(),
        ensures
            n == self.spec_capacity() - self.history().queued().len(),
    {
        self.buffer.free_space()
    }
}

} // verus!

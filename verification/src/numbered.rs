//! A ledger whose calls are numbered.
//!
//! A value that is offered comes with the number of values that the caller has got in before it,
//! and a request with the number of values that the caller has got out before it. The ledger
//! counts too, and does nothing for a caller whose number is another. In a queue with one producer
//! and one consumer the numbers always agree; that they do is tested on each call, so that each
//! end can rely on which value of all it is dealing with.

use vstd::prelude::*;

use crate::ledger::Ledger;

verus! {

/// A ledger with the numbers of the values that came and went.
pub struct Numbered<T> {
    ledger: Ledger<T>,
    came: u64,
    went: u64,
}

impl<T> Numbered<T> {
    /// The invariant: the ledger is in order, and the numbers are those of its history.
    pub closed spec fn wf(&self) -> bool {
        &&& self.ledger.wf()
        &&& self.came == self.ledger.history().accepted.len()
        &&& self.went == self.ledger.history().taken.len()
    }

    /// The number of values that the queue takes before it is full.
    pub closed spec fn spec_capacity(&self) -> nat {
        self.ledger.spec_capacity()
    }

    /// What has passed through the queue.
    pub closed spec fn history(&self) -> crate::model::History<T> {
        self.ledger.history()
    }

    /// The values that were destroyed at the end, in the order in which that happened.
    pub closed spec fn destroyed(&self) -> Seq<T> {
        self.ledger.destroyed()
    }

    /// The invariant makes the history one that a queue of this capacity can have.
    pub proof fn lemma_history_valid(&self)
        requires
            self.wf(),
        ensures
            self.history().valid(self.spec_capacity()),
    {
        self.ledger.lemma_history_valid();
    }

    /// Creates the ledger of an empty queue of `capacity` values.
    pub fn new(capacity: usize) -> (ledger: Self)
        requires
            crate::memory::fits::<T>(capacity as int),
        ensures
            ledger.wf(),
            ledger.spec_capacity() == capacity,
            ledger.history() == crate::model::History::<T>::empty(),
            ledger.destroyed() == Seq::<T>::empty(),
    {
        Numbered { ledger: Ledger::new(capacity), came: 0, went: 0 }
    }

    /// Offers a value, as the one that `n` values have come in before.
    ///
    /// It is refused where another number of values has come in, or `u64::MAX` of them.
    pub fn offer(&mut self, n: u64, v: T) -> (r: Option<T>)
        requires
            old(self).wf(),
        ensures
            final(self).wf(),
            final(self).spec_capacity() == old(self).spec_capacity(),
            final(self).destroyed() == old(self).destroyed(),
            ({
                let before = old(self).history();
                if n == before.accepted.len() && n < u64::MAX {
                    &&& r == crate::model::push_reply(
                        before.queued(),
                        old(self).spec_capacity(),
                        v,
                    )
                    &&& final(self).history() == before.push(old(self).spec_capacity(), v)
                } else {
                    &&& r == Some(v)
                    &&& final(self).history() == before
                }
            }),
    {
        if n != self.came || n == u64::MAX {
            return Some(v);
        }
        let r = self.ledger.try_push(v);
        if r.is_none() {
            self.came = n + 1;
        }
        r
    }

    /// Asks for the next value, as the one that `n` values have gone out before.
    ///
    /// Nothing comes where another number of values has gone out.
    pub fn request(&mut self, n: u64) -> (r: Option<T>)
        requires
            old(self).wf(),
        ensures
            final(self).wf(),
            final(self).spec_capacity() == old(self).spec_capacity(),
            final(self).destroyed() == old(self).destroyed(),
            ({
                let before = old(self).history();
                if n == before.taken.len() {
                    &&& r == crate::model::pop_reply(before.queued())
                    &&& final(self).history() == before.pop()
                } else {
                    &&& r is None
                    &&& final(self).history() == before
                }
            }),
            r matches Some(v) ==> {
                &&& n < old(self).history().accepted.len() <= u64::MAX
                &&& v == old(self).history().accepted[n as int]
            },
    {
        if n != self.went {
            return None;
        }
        proof {
            self.lemma_history_valid();
        }
        let r = self.ledger.try_pop();
        if r.is_some() {
            self.went = n + 1;
        }
        r
    }

    /// Takes out what is left in the queue, oldest first, and destroys each value as it comes.
    ///
    /// The result is a ghost: the values that were destroyed, in that order.
    pub fn drain(&mut self) -> (destroyed: Ghost<Seq<T>>)
        requires
            old(self).wf(),
        ensures
            final(self).wf(),
            final(self).spec_capacity() == old(self).spec_capacity(),
            destroyed@ == old(self).history().queued(),
            final(self).destroyed() == old(self).destroyed() + old(self).history().queued(),
            final(self).history() == old(self).history().drain(),
            final(self).history().taken == old(self).history().accepted,
        opens_invariants none
        no_unwind
    {
        let destroyed = self.ledger.drain();
        self.went = self.came;
        destroyed
    }

    /// Returns the number of values in the queue.
    pub fn size(&self) -> (n: usize)
        requires
            self.wf(),
        ensures
            n == self.history().queued().len(),
            n <= self.spec_capacity(),
    {
        self.ledger.size()
    }

    /// Returns the number of values in the queue, to the end through which `n` values have come.
    ///
    /// That is no more than came. Where another number of values has come, nothing is counted.
    pub fn sent_size(&self, n: u64) -> (size: usize)
        requires
            self.wf(),
        ensures
            size == if n == self.history().accepted.len() {
                self.history().queued().len()
            } else {
                0
            },
            size <= self.spec_capacity(),
            size <= n,
    {
        if n == self.came {
            proof {
                self.lemma_history_valid();
            }
            self.ledger.size()
        } else {
            0
        }
    }

    /// Returns the number of values that can be pushed before the queue is full, to the end through
    /// which `n` values have come.
    ///
    /// Where another number of values has come, nothing is counted as taking room.
    pub fn free_space(&self, n: u64) -> (free: usize)
        requires
            self.wf(),
        ensures
            free == self.spec_capacity() - if n == self.history().accepted.len() {
                self.history().queued().len()
            } else {
                0
            },
            free <= self.spec_capacity(),
            free >= self.spec_capacity() - n,
    {
        if n == self.came {
            proof {
                self.lemma_history_valid();
            }
            self.ledger.free_space()
        } else {
            self.ledger.capacity()
        }
    }
}

} // verus!

//! The lock of a queue.
//!
//! A ledger goes into the lock with an empty history. It comes out when the lock is opened, and
//! goes back when the lock is closed: only in order, and only with a history that is at most one
//! push or one pop on from the history with which it came out. So the history of what is in the
//! lock is at every moment that of a sequence of pushes and pops on an empty queue.
//!
//! The two logs of the lock are for the two ends of the queue, one for each. So what an end does
//! to the ledger is in its log, visit by visit.
//!
//! Beside the ledger stands what its maker says of the values, place by place. Only values of
//! which that is true go in, each at its own place.

use vstd::prelude::*;
use vstd::rwlock::{RwLock, RwLockPredicate};

use crate::lock::Lock;
use crate::model::Visit;
use crate::numbered::Numbered;

verus! {

/// The condition that a ledger in the lock of a queue meets.
#[verifier::reject_recursive_types(T)]
pub struct Bounded<T> {
    /// The capacity of the queue.
    pub capacity: usize,
    /// What is true of each value, given how many came before it.
    pub says: spec_fn(nat, T) -> bool,
}

impl<T> RwLockPredicate<Numbered<T>> for Bounded<T> {
    /// The ledger is in order, has the capacity of the queue, and took in only what may come.
    open spec fn inv(self, ledger: Numbered<T>) -> bool {
        &&& ledger.wf()
        &&& ledger.spec_capacity() == self.capacity
        &&& ledger.history().follows(self.says)
    }
}

/// The right to open the lock of a queue once.
pub(crate) type Pass<T> = crate::lock::Pass<Numbered<T>, Bounded<T>>;

/// The proof of a visit to the lock of a queue.
pub(crate) type Receipt<T> = crate::lock::Receipt<Numbered<T>, Bounded<T>>;

/// The log of one end of a queue.
pub(crate) type Log<T> = crate::lock::Log<Numbered<T>, Bounded<T>>;

/// A ledger behind a lock.
#[verifier::reject_recursive_types(T)]
pub(crate) struct Guard<T> {
    lock: Lock<Numbered<T>, Bounded<T>>,
}

/// The right to close a lock that was opened.
#[verifier::reject_recursive_types(T)]
pub(crate) struct Opened<'a, T> {
    opened: crate::lock::Opened<'a, Numbered<T>, Bounded<T>>,
}

impl<T> crate::lock::Receipt<Numbered<T>, Bounded<T>> {
    /// The visit, by the histories of the ledger.
    pub(crate) closed spec fn visit(&self) -> Visit<T> {
        Visit { before: self.found().history(), after: self.left().history() }
    }
}

impl<T> crate::lock::Log<Numbered<T>, Bounded<T>> {
    /// The visits in their order, by the histories of the ledger.
    pub(crate) closed spec fn visits(&self) -> Seq<Visit<T>> {
        Seq::new(
            self.entries().len(),
            |i: int|
                Visit {
                    before: self.entries()[i].0.history(),
                    after: self.entries()[i].1.history(),
                },
        )
    }

    /// Gives out a pass for a visit.
    pub(crate) fn set_out(&mut self) -> (pass: Pass<T>)
        ensures
            pass.source() == old(self).source(),
            final(self).source() == old(self).source(),
            final(self).passes() == old(self).passes() + 1,
            final(self).visits() == old(self).visits(),
        opens_invariants none
        no_unwind
    {
        let pass = self.begin();
        assert(self.visits() =~= old(self).visits());
        pass
    }

    /// Takes in the receipt of a visit.
    pub(crate) fn enter(&mut self, receipt: Receipt<T>)
        requires
            receipt.source() == old(self).source(),
        ensures
            final(self).source() == old(self).source(),
            final(self).passes() == old(self).passes(),
            final(self).visits() == old(self).visits().push(receipt.visit()),
        opens_invariants none
        no_unwind
    {
        self.finish(receipt);
        assert(self.visits() =~= old(self).visits().push(receipt.visit()));
    }
}

impl<T> Guard<T> {
    /// The capacity of the queue.
    pub(crate) closed spec fn spec_capacity(&self) -> nat {
        self.lock.pred().capacity as nat
    }

    /// What is true of each value, given how many came before it.
    pub(crate) closed spec fn says(&self) -> spec_fn(nat, T) -> bool {
        self.lock.pred().says
    }

    /// The lock itself.
    pub(crate) closed spec fn lock(&self) -> Lock<Numbered<T>, Bounded<T>> {
        self.lock
    }

    /// Puts a ledger with an empty history behind a lock, and opens its two logs.
    pub(crate) fn new(
        ledger: Numbered<T>,
        capacity: usize,
        Ghost(says): Ghost<spec_fn(nat, T) -> bool>,
    ) -> (r: (Self, Log<T>, Log<T>))
        requires
            ledger.wf(),
            ledger.spec_capacity() == capacity,
            ledger.history() == crate::model::History::<T>::empty(),
        ensures
            r.0.spec_capacity() == capacity,
            r.0.says() == says,
            r.1.source() == r.0.lock() && r.2.source() == r.0.lock(),
            r.1.passes() == 0 && r.2.passes() == 0,
            r.1.visits().len() == 0 && r.2.visits().len() == 0,
    {
        let (lock, one, other) = Lock::new(ledger, Ghost(Bounded { capacity, says }));
        (Guard { lock }, one, other)
    }

    /// Opens the lock, as soon as nobody else has it open, and notes the history of the ledger.
    pub(crate) fn open(&self, pass: Pass<T>) -> (r: (Numbered<T>, Opened<'_, T>))
        requires
            pass.source() == self.lock(),
        ensures
            r.1.source() == self.lock(),
            r.0.wf(),
            r.0.spec_capacity() == self.spec_capacity(),
            r.0.history().valid(self.spec_capacity()),
            r.0.history().follows(self.says()),
            r.1.spec_capacity() == self.spec_capacity(),
            r.1.says() == self.says(),
            r.1.before() == r.0.history(),
    {
        let (ledger, opened) = self.lock.open(pass);
        proof {
            ledger.lemma_history_valid();
        }
        (ledger, Opened { opened })
    }

    /// Returns the number of values in the queue.
    pub(crate) fn size(&self, pass: Pass<T>) -> (r: (usize, Receipt<T>))
        requires
            pass.source() == self.lock(),
        ensures
            r.1.source() == self.lock(),
            r.1.visit().lawful(self.spec_capacity(), self.says()),
            r.1.visit().looked(),
            r.0 == r.1.visit().before.queued().len(),
    {
        let (ledger, opened) = self.lock.open(pass);
        proof {
            ledger.lemma_history_valid();
        }
        let found: usize = ledger.size();
        (found, opened.close(ledger))
    }

    /// Returns the number of values in the queue, to the end through which `n` values have come.
    pub(crate) fn sent_size(&self, pass: Pass<T>, n: u64) -> (r: (usize, Receipt<T>))
        requires
            pass.source() == self.lock(),
        ensures
            r.1.source() == self.lock(),
            r.1.visit().lawful(self.spec_capacity(), self.says()),
            r.1.visit().looked(),
            n == r.1.visit().before.accepted.len() ==> r.0 == r.1.visit().before.queued().len(),
            n != r.1.visit().before.accepted.len() ==> r.0 == 0,
    {
        let (ledger, opened) = self.lock.open(pass);
        proof {
            ledger.lemma_history_valid();
        }
        let found: usize = ledger.sent_size(n);
        (found, opened.close(ledger))
    }

    /// Returns the free space of the queue, to the end through which `n` values have come.
    pub(crate) fn free_space(&self, pass: Pass<T>, n: u64) -> (r: (usize, Receipt<T>))
        requires
            pass.source() == self.lock(),
        ensures
            r.1.source() == self.lock(),
            r.1.visit().lawful(self.spec_capacity(), self.says()),
            r.1.visit().looked(),
            n == r.1.visit().before.accepted.len() ==> r.0 == self.spec_capacity()
                - r.1.visit().before.queued().len(),
            n != r.1.visit().before.accepted.len() ==> r.0 == self.spec_capacity(),
    {
        let (ledger, opened) = self.lock.open(pass);
        proof {
            ledger.lemma_history_valid();
        }
        let found: usize = ledger.free_space(n);
        (found, opened.close(ledger))
    }

    /// Takes the ledger out of the lock, which is gone then.
    pub(crate) fn into_ledger(self) -> (ledger: Numbered<T>)
        ensures
            ledger.wf(),
            ledger.spec_capacity() == self.spec_capacity(),
            ledger.history().follows(self.says()),
        opens_invariants none
        no_unwind
    {
        reclaim(self.lock.into_rwlock())
    }
}

impl<'a, T> Opened<'a, T> {
    /// The lock that is open.
    pub(crate) closed spec fn source(&self) -> Lock<Numbered<T>, Bounded<T>> {
        self.opened.source()
    }

    /// The capacity of the queue.
    pub(crate) closed spec fn spec_capacity(&self) -> nat {
        self.opened.source().pred().capacity as nat
    }

    /// What is true of each value, given how many came before it.
    pub(crate) closed spec fn says(&self) -> spec_fn(nat, T) -> bool {
        self.opened.source().pred().says
    }

    /// The history with which the ledger came out of the lock.
    pub(crate) closed spec fn before(&self) -> crate::model::History<T> {
        self.opened.found().history()
    }

    /// Closes the lock, with a ledger that is as it was or on which `op` was done.
    pub(crate) fn close(
        self,
        ledger: Numbered<T>,
        Ghost(op): Ghost<crate::model::Op<T>>,
    ) -> (receipt: Receipt<T>)
        requires
            ledger.wf(),
            ledger.spec_capacity() == self.spec_capacity(),
            ledger.history().follows(self.says()),
            ledger.history() == self.before() || ledger.history() == self.before().apply(
                self.spec_capacity(),
                op,
            ),
        ensures
            receipt.source() == self.source(),
            receipt.visit().before == self.before(),
            receipt.visit().after == ledger.history(),
    {
        self.opened.close(ledger)
    }
}

/// Takes the ledger out of a lock, which is gone then.
///
/// The call is `RwLock::into_inner` of vstd, which gives out a value that meets the predicate of
/// the lock. What is claimed beyond that, and not proved, is that the call does not unwind, and
/// opens no invariant that its caller could hold open: it waits on the two atomics of the lock,
/// which is at rest when it can be moved, and moves the value out.
#[verifier::external_body]
fn reclaim<T>(lock: RwLock<Numbered<T>, Bounded<T>>) -> (ledger: Numbered<T>)
    ensures
        lock.inv(ledger),
    opens_invariants none
    no_unwind
{
    lock.into_inner()
}

} // verus!

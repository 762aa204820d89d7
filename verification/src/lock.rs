//! A lock that keeps books.
//!
//! Whoever opens the lock needs a pass, and gets a receipt when it is closed, which states the
//! value that was found and the value that was left. Passes come from a log, and receipts go into
//! it. A lock has two logs, and there is no way to make another. So what is done to the value is in
//! one of the logs, visit by visit, save for visits that were begun and not entered, which can be
//! counted.
//!
//! The lock does not know what kind of value it guards. It can only hand it on.

use vstd::prelude::*;
use vstd::rwlock::{RwLock, RwLockPredicate, WriteHandle};

verus! {

/// A value behind a lock.
#[verifier::reject_recursive_types(V)]
#[verifier::reject_recursive_types(P)]
pub(crate) struct Lock<V, P: RwLockPredicate<V>> {
    lock: RwLock<V, P>,
}

/// The right to close a lock that was opened.
#[verifier::reject_recursive_types(V)]
#[verifier::reject_recursive_types(P)]
pub(crate) struct Opened<'a, V, P: RwLockPredicate<V>> {
    lock: WriteHandle<'a, V, P>,
    found: Ghost<V>,
}

/// The right to open a lock once.
#[verifier::reject_recursive_types(V)]
#[verifier::reject_recursive_types(P)]
pub(crate) struct Pass<V, P: RwLockPredicate<V>> {
    source: Ghost<Lock<V, P>>,
}

/// The proof of a visit to a lock.
#[verifier::reject_recursive_types(V)]
#[verifier::reject_recursive_types(P)]
pub(crate) struct Receipt<V, P: RwLockPredicate<V>> {
    source: Ghost<Lock<V, P>>,
    found: Ghost<V>,
    left: Ghost<V>,
}

/// One of the two logs of a lock. It costs nothing at run time.
#[verifier::reject_recursive_types(V)]
#[verifier::reject_recursive_types(P)]
pub(crate) struct Log<V, P: RwLockPredicate<V>> {
    source: Ghost<Lock<V, P>>,
    passes: Ghost<nat>,
    entries: Ghost<Seq<(V, V)>>,
}

impl<V, P: RwLockPredicate<V>> Pass<V, P> {
    /// The lock that the pass is for.
    pub(crate) closed spec fn source(&self) -> Lock<V, P> {
        self.source@
    }
}

impl<V, P: RwLockPredicate<V>> Receipt<V, P> {
    /// The lock that was visited.
    pub(crate) closed spec fn source(&self) -> Lock<V, P> {
        self.source@
    }

    /// The value that was in the lock when it was opened.
    pub(crate) closed spec fn found(&self) -> V {
        self.found@
    }

    /// The value that was in the lock when it was closed.
    pub(crate) closed spec fn left(&self) -> V {
        self.left@
    }
}

impl<V, P: RwLockPredicate<V>> Log<V, P> {
    /// The lock whose log this is.
    pub(crate) closed spec fn source(&self) -> Lock<V, P> {
        self.source@
    }

    /// The number of passes that were given out.
    pub(crate) closed spec fn passes(&self) -> nat {
        self.passes@
    }

    /// The visits, in their order: what was found, and what was left.
    pub(crate) closed spec fn entries(&self) -> Seq<(V, V)> {
        self.entries@
    }

    /// Gives out a pass.
    pub(crate) fn begin(&mut self) -> (pass: Pass<V, P>)
        ensures
            pass.source() == old(self).source(),
            final(self).source() == old(self).source(),
            final(self).passes() == old(self).passes() + 1,
            final(self).entries() == old(self).entries(),
        opens_invariants none
        no_unwind
    {
        self.passes = Ghost(self.passes@ + 1);
        Pass { source: Ghost(self.source@) }
    }

    /// Takes in a receipt.
    pub(crate) fn finish(&mut self, receipt: Receipt<V, P>)
        requires
            receipt.source() == old(self).source(),
        ensures
            final(self).source() == old(self).source(),
            final(self).passes() == old(self).passes(),
            final(self).entries() == old(self).entries().push((receipt.found(), receipt.left())),
        opens_invariants none
        no_unwind
    {
        self.entries = Ghost(self.entries@.push((receipt.found@, receipt.left@)));
    }
}

impl<V, P: RwLockPredicate<V>> Lock<V, P> {
    /// What is true of every value in the lock.
    pub(crate) closed spec fn pred(&self) -> P {
        self.lock.pred()
    }

    /// Puts a value behind a lock, and opens its two logs.
    pub(crate) fn new(value: V, Ghost(pred): Ghost<P>) -> (r: (Self, Log<V, P>, Log<V, P>))
        requires
            pred.inv(value),
        ensures
            r.0.pred() == pred,
            r.1.source() == r.0 && r.2.source() == r.0,
            r.1.passes() == 0 && r.2.passes() == 0,
            r.1.entries().len() == 0 && r.2.entries().len() == 0,
    {
        let lock = Lock { lock: RwLock::new(value, Ghost(pred)) };
        let one = Log { source: Ghost(lock), passes: Ghost(0), entries: Ghost(Seq::empty()) };
        let other = Log { source: Ghost(lock), passes: Ghost(0), entries: Ghost(Seq::empty()) };
        (lock, one, other)
    }

    /// Opens the lock, as soon as nobody else has it open.
    pub(crate) fn open(&self, pass: Pass<V, P>) -> (r: (V, Opened<'_, V, P>))
        requires
            pass.source() == *self,
        ensures
            self.pred().inv(r.0),
            r.1.source() == *self,
            r.1.found() == r.0,
    {
        let (value, lock) = self.lock.acquire_write();
        let found = Ghost(value);
        (value, Opened { lock, found })
    }

    /// Takes away the books.
    pub(crate) fn into_rwlock(self) -> (lock: RwLock<V, P>)
        ensures
            lock.pred() == self.pred(),
        opens_invariants none
        no_unwind
    {
        self.lock
    }
}

impl<'a, V, P: RwLockPredicate<V>> Opened<'a, V, P> {
    /// The lock that is open.
    pub(crate) closed spec fn source(&self) -> Lock<V, P> {
        Lock { lock: self.lock.rwlock() }
    }

    /// The value that came out of the lock.
    pub(crate) closed spec fn found(&self) -> V {
        self.found@
    }

    /// Closes the lock.
    pub(crate) fn close(self, value: V) -> (receipt: Receipt<V, P>)
        requires
            self.source().pred().inv(value),
        ensures
            receipt.source() == self.source(),
            receipt.found() == self.found(),
            receipt.left() == value,
    {
        let source = Ghost(self.source());
        let found = self.found;
        let left = Ghost(value);
        self.lock.release_write(value);
        Receipt { source, found, left }
    }
}

} // verus!

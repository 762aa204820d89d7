//! The two ends of a queue, for two threads.
//!
//! The handles share one ledger behind a lock. Whoever has the lock open works on the ledger
//! alone, and can close it only when the history of the ledger is at most one push or one pop on.
//! So what happens to the ledger is a sequence of pushes and pops, each of which does to it exactly
//! what the contracts of [`Numbered`] say.
//!
//! Between two calls of one handle the other handle may have been in use, so a handle does not
//! know whether its next call finds the queue full or empty. But it knows which value it deals
//! with. The producer counts the values that it got in, and the consumer those that it got out,
//! and first in, first out means that the consumer's value with a number is the producer's value
//! with that number. It is stated so: whoever makes a queue says what is true of each value, given
//! its number. The producer pushes only what is said of the number that is up, and the consumer
//! gets what is said of the number that is up for it.
//!
//! Each handle keeps a log of its visits to the lock, which costs nothing at run time. What a call
//! returns is stated exactly of what its visits found there and left there. The log cannot be made
//! up: an entry comes from a visit, and a visit makes an entry.

use std::marker::PhantomData;
use std::sync::Arc;
use vstd::cell::invcell::InvCell;
use vstd::prelude::*;

use crate::guard::{Bounded, Guard, Log, Pass, Receipt};
use crate::lock::Lock;
use crate::memory;
use crate::model::{Op, Visit};
use crate::numbered::Numbered;
use crate::wait::{after_offer, after_request, PopWait, PushWait};

verus! {

/// How often a waiting push or pop tries before it gives up: more often than any program will.
const PATIENCE: u64 = 0xffff_ffff_ffff_ffff;

/// The part of a queue that its two handles share.
#[verifier::reject_recursive_types(T)]
pub struct Shared<T> {
    /// The capacity of the queue, for all to read.
    capacity: usize,
    /// The ledger in use. There is one while a handle is left.
    ledger: Option<Guard<T>>,
    /// The ledger at the end, with nothing in it. There is none while a handle is left.
    spent: Option<Numbered<T>>,
    /// What is true of each value, given how many came before it.
    says: Ghost<spec_fn(nat, T) -> bool>,
}

impl<T> Shared<T> {
    /// The lock guards a ledger of this capacity, with values of which is true what is said.
    #[verifier::type_invariant]
    spec fn wf(self) -> bool {
        self.ledger matches Some(guard) ==> {
            &&& guard.spec_capacity() == self.capacity
            &&& guard.says() == self.says@
        }
    }

    /// The capacity of the queue.
    pub closed spec fn spec_capacity(&self) -> nat {
        self.capacity as nat
    }

    /// What is true of each value, given how many came before it.
    pub closed spec fn says(&self) -> spec_fn(nat, T) -> bool {
        self.says@
    }

    /// The queue is in use.
    pub closed spec fn is_open(&self) -> bool {
        self.ledger is Some
    }

    /// The lock of a queue that is in use.
    pub(crate) closed spec fn lock(&self) -> Lock<Numbered<T>, Bounded<T>> {
        self.ledger->0.lock()
    }

    /// Nothing is left in the queue: its ledger is closed, and all that the queue ever took in has
    /// gone out of it, by a pop or at the end.
    pub closed spec fn is_spent(&self) -> bool {
        match self.spent {
            Some(ledger) => {
                &&& self.ledger is None
                &&& ledger.wf()
                &&& ledger.spec_capacity() == self.spec_capacity()
                &&& ledger.history().follows(self.says())
                &&& ledger.history().taken == ledger.history().accepted
            },
            None => false,
        }
    }

    /// Creates a queue, with a log for each end.
    fn new(capacity: usize, Ghost(says): Ghost<spec_fn(nat, T) -> bool>) -> (r: (
        Self,
        Log<T>,
        Log<T>,
    ))
        requires
            memory::fits::<T>(capacity as int),
        ensures
            r.0.spec_capacity() == capacity,
            r.0.says() == says,
            r.0.is_open(),
            r.1.source() == r.0.lock() && r.2.source() == r.0.lock(),
            r.1.passes() == 0 && r.2.passes() == 0,
            r.1.visits().len() == 0 && r.2.visits().len() == 0,
    {
        let (guard, one, other) = Guard::new(Numbered::new(capacity), capacity, Ghost(says));
        let shared = Shared { capacity, ledger: Some(guard), spent: None, says: Ghost(says) };
        (shared, one, other)
    }

    fn capacity(&self) -> (n: usize)
        ensures
            n == self.spec_capacity(),
    {
        self.capacity
    }

    /// Offers a value, as the one that `n` values have come in before.
    fn try_push(&self, pass: Pass<T>, n: u64, v: T) -> (r: (Option<T>, Receipt<T>))
        requires
            self.is_open(),
            pass.source() == self.lock(),
            (self.says())(n as nat, v),
        ensures
            r.0 is Some ==> r.0 == Some(v),
            r.0 is None ==> n < u64::MAX && self.spec_capacity() > 0,
            r.1.source() == self.lock(),
            r.1.visit().lawful(self.spec_capacity(), self.says()),
            r.0 is None ==> r.1.visit().took(self.spec_capacity(), n as nat, v),
            r.0 is Some ==> r.1.visit().refused(self.spec_capacity(), n as nat),
    {
        proof {
            use_type_invariant(self);
        }
        let guard = self.ledger.as_ref().unwrap();
        let (ledger, opened) = guard.open(pass);
        let mut ledger = ledger;
        let r = ledger.offer(n, v);
        proof {
            ledger.lemma_history_valid();
        }
        let receipt = opened.close(ledger, Ghost(Op::Push(v)));
        (r, receipt)
    }

    /// Asks for the next value, as the one that `n` values have gone out before.
    fn try_pop(&self, pass: Pass<T>, n: u64) -> (r: (Option<T>, Receipt<T>))
        requires
            self.is_open(),
            pass.source() == self.lock(),
        ensures
            r.0 matches Some(v) ==> {
                &&& (self.says())(n as nat, v)
                &&& n < u64::MAX
                &&& self.spec_capacity() > 0
                &&& r.1.visit().gave(n as nat, v)
            },
            r.1.source() == self.lock(),
            r.1.visit().lawful(self.spec_capacity(), self.says()),
            r.0 is None ==> r.1.visit().found_nothing(n as nat),
    {
        proof {
            use_type_invariant(self);
        }
        let guard = self.ledger.as_ref().unwrap();
        let (ledger, opened) = guard.open(pass);
        let mut ledger = ledger;
        let r = ledger.request(n);
        proof {
            ledger.lemma_history_valid();
        }
        let receipt = opened.close(ledger, Ghost(Op::Pop));
        (r, receipt)
    }

    /// The size.
    fn size(&self, pass: Pass<T>) -> (r: (usize, Receipt<T>))
        requires
            self.is_open(),
            pass.source() == self.lock(),
        ensures
            r.0 <= self.spec_capacity(),
            r.1.source() == self.lock(),
            r.1.visit().lawful(self.spec_capacity(), self.says()),
            r.1.visit().looked(),
            r.0 == r.1.visit().before.queued().len(),
    {
        proof {
            use_type_invariant(self);
        }
        self.ledger.as_ref().unwrap().size(pass)
    }

    /// The size, to the end through which `n` values have come.
    fn sent_size(&self, pass: Pass<T>, n: u64) -> (r: (usize, Receipt<T>))
        requires
            self.is_open(),
            pass.source() == self.lock(),
        ensures
            r.0 <= self.spec_capacity(),
            r.0 <= n,
            r.1.source() == self.lock(),
            r.1.visit().lawful(self.spec_capacity(), self.says()),
            r.1.visit().looked(),
            n == r.1.visit().before.accepted.len() ==> r.0 == r.1.visit().before.queued().len(),
            n != r.1.visit().before.accepted.len() ==> r.0 == 0,
    {
        proof {
            use_type_invariant(self);
        }
        self.ledger.as_ref().unwrap().sent_size(pass, n)
    }

    /// The free space, to the end through which `n` values have come.
    fn free_space(&self, pass: Pass<T>, n: u64) -> (r: (usize, Receipt<T>))
        requires
            self.is_open(),
            pass.source() == self.lock(),
        ensures
            r.0 <= self.spec_capacity(),
            r.0 >= self.spec_capacity() - n,
            r.1.source() == self.lock(),
            r.1.visit().lawful(self.spec_capacity(), self.says()),
            r.1.visit().looked(),
            n == r.1.visit().before.accepted.len() ==> r.0 == self.spec_capacity()
                - r.1.visit().before.queued().len(),
            n != r.1.visit().before.accepted.len() ==> r.0 == self.spec_capacity(),
    {
        proof {
            use_type_invariant(self);
        }
        self.ledger.as_ref().unwrap().free_space(pass, n)
    }
}

impl<T> Drop for Shared<T> {
    /// Destroys the values that are still queued, oldest first, when the second of the two
    /// handles goes away. The ring is freed with the ledger.
    fn drop(&mut self)
        ensures
            old(self).is_open() ==> final(self).is_spent(),
        opens_invariants none
        no_unwind
    {
        proof {
            use_type_invariant(&*self);
        }
        let mut guard: Option<Guard<T>> = None;
        std::mem::swap(&mut guard, &mut self.ledger);
        match guard {
            Some(guard) => {
                let mut ledger = guard.into_ledger();
                ledger.drain();
                self.spent = Some(ledger);
            },
            None => {},
        }
    }
}

/// A handle to the queue which allows adding values onto the buffer.
///
/// The handle can be sent to another thread, but not shared with one. A call waits while the
/// other handle is inside a call.
#[verifier::reject_recursive_types(T)]
pub struct Producer<T> {
    buffer: Arc<Shared<T>>,
    /// The number of values that the queue has taken.
    sent: u64,
    /// The visits to the lock.
    log: Log<T>,
    unshared: PhantomData<InvCell<bool, bool>>,
}

/// A handle to the queue which allows consuming values from the buffer.
///
/// The handle can be sent to another thread, but not shared with one. A call waits while the
/// other handle is inside a call.
#[verifier::reject_recursive_types(T)]
pub struct Consumer<T> {
    buffer: Arc<Shared<T>>,
    /// The number of values that the queue has given.
    received: u64,
    /// The visits to the lock.
    log: Log<T>,
    unshared: PhantomData<InvCell<bool, bool>>,
}

/// Creates a new queue, returning a Producer and a Consumer handle.
///
/// Capacity specifies the size of the bounded queue to create. The ring behind it has
/// `capacity.next_power_of_two()` slots, since rings with power of two sizes can use a bitwise
/// AND to index into the ring instead of a more expensive modulo operator.
///
/// A slot takes the memory of an `Option<T>`. A request for more memory than there is ends the
/// program. A request whose size overflows is not admitted: `can_make` tells, and `try_make` tests
/// it first.
///
/// Nothing is said of the values. To prove which values arrive, use `make_saying`.
pub fn make<T>(capacity: usize) -> (handles: (Producer<T>, Consumer<T>))
    requires
        memory::fits::<T>(capacity as int),
    ensures
        handles.0.queue() == handles.1.queue(),
        handles.0.queue().spec_capacity() == capacity,
        handles.0.queue().says() == crate::model::anything::<T>(),
        handles.0.queue().is_open(),
        handles.0.sent() == 0,
        handles.1.received() == 0,
        handles.0.visits().len() == 0 && handles.0.unlogged() == 0,
        handles.1.visits().len() == 0 && handles.1.unlogged() == 0,
{
    make_saying(capacity, Ghost(crate::model::anything::<T>()))
}

/// Creates a new queue of values of which something is said: what is true of each, given how many
/// are pushed before it. What is said costs nothing at run time.
///
/// To say that a value is the one with this number in a sequence is to prove that the values of
/// the sequence arrive, in their order, none missing and none twice.
pub fn make_saying<T>(capacity: usize, Ghost(says): Ghost<spec_fn(nat, T) -> bool>) -> (handles: (
    Producer<T>,
    Consumer<T>,
))
    requires
        memory::fits::<T>(capacity as int),
    ensures
        handles.0.queue() == handles.1.queue(),
        handles.0.queue().spec_capacity() == capacity,
        handles.0.queue().says() == says,
        handles.0.queue().is_open(),
        handles.0.sent() == 0,
        handles.1.received() == 0,
        handles.0.visits().len() == 0 && handles.0.unlogged() == 0,
        handles.1.visits().len() == 0 && handles.1.unlogged() == 0,
{
    let (shared, one, other) = Shared::new(capacity, Ghost(says));
    let buffer = Arc::new(shared);
    (
        Producer { buffer: buffer.clone(), sent: 0, log: one, unshared: PhantomData },
        Consumer { buffer: buffer.clone(), received: 0, log: other, unshared: PhantomData },
    )
}

/// Creates a new queue where its size does not overflow, and returns `None` where it does.
pub fn try_make<T>(capacity: usize) -> (handles: Option<(Producer<T>, Consumer<T>)>)
    ensures
        handles is Some <==> memory::fits::<T>(capacity as int),
        handles matches Some((p, c)) ==> {
            &&& p.queue() == c.queue()
            &&& p.queue().spec_capacity() == capacity
            &&& p.queue().says() == crate::model::anything::<T>()
            &&& p.queue().is_open()
            &&& p.sent() == 0
            &&& c.received() == 0
            &&& p.visits().len() == 0 && p.unlogged() == 0
            &&& c.visits().len() == 0 && c.unlogged() == 0
        },
{
    if memory::can_make::<T>(capacity) {
        Some(make(capacity))
    } else {
        None
    }
}

impl<T> Producer<T> {
    /// The queue is in use, and the log is one of its logs.
    #[verifier::type_invariant]
    spec fn wf(self) -> bool {
        self.buffer.is_open() && self.log.source() == self.buffer.lock()
    }

    /// The visits that this handle has paid to the lock of the queue.
    pub closed spec fn visits(&self) -> Seq<Visit<T>> {
        self.log.visits()
    }

    /// The number of visits that were begun and are not in the log.
    pub closed spec fn unlogged(&self) -> int {
        self.log.passes() - self.log.visits().len()
    }

    /// The visits since `before`.
    pub open spec fn visits_since(&self, before: Self) -> Seq<Visit<T>> {
        self.visits().skip(before.visits().len() as int)
    }

    /// The queue is the same and is in use, and what happened since `before` is in the log, which
    /// has only grown, by visits with histories that the queue can have.
    pub open spec fn goes_on_from(&self, before: Self) -> bool {
        &&& self.queue() == before.queue()
        &&& self.queue().is_open()
        &&& self.unlogged() == before.unlogged()
        &&& before.visits().is_prefix_of(self.visits())
        &&& forall|k: int|
            0 <= k < self.visits_since(before).len() ==> (#[trigger] self.visits_since(
                before,
            )[k]).lawful(self.queue().spec_capacity(), self.queue().says())
    }

    /// One run of visits after another is a run of visits.
    pub(crate) proof fn lemma_log_grows(start: Self, middle: Self, end: Self)
        requires
            middle.goes_on_from(start),
            end.goes_on_from(middle),
        ensures
            end.goes_on_from(start),
            end.visits_since(start) == middle.visits_since(start) + end.visits_since(middle),
    {
        assert(middle.visits() =~= end.visits().take(middle.visits().len() as int));
        assert(start.visits() =~= middle.visits().take(start.visits().len() as int));
        assert(start.visits() =~= end.visits().take(start.visits().len() as int));
        assert(end.visits_since(start) =~= middle.visits_since(start) + end.visits_since(middle));
        assert forall|k: int|
            0 <= k < end.visits_since(start).len() implies (#[trigger] end.visits_since(
            start,
        )[k]).lawful(end.queue().spec_capacity(), end.queue().says()) by {
            let n = middle.visits_since(start).len();
            if k < n {
                assert(end.visits_since(start)[k] == middle.visits_since(start)[k]);
            } else {
                assert(end.visits_since(start)[k] == end.visits_since(middle)[k - n]);
            }
        }
    }

    /// The queue behind the handle.
    pub closed spec fn queue(&self) -> Shared<T> {
        *self.buffer
    }

    /// The number of values that the queue has taken through this handle.
    pub closed spec fn sent(&self) -> nat {
        self.sent as nat
    }

    /// The value may be pushed next: what is said of the number that is up is true of it. Of a
    /// queue of which nothing is said, this is true of every value.
    pub open spec fn may_push(&self, v: T) -> bool {
        (self.queue().says())(self.sent(), v)
    }

    /// Push a value onto the queue.
    ///
    /// If the queue is full, this tries again until it is not; the waiting strategy is a simple
    /// spin-wait. Returns `None` when the queue has taken the value. Only after `u64::MAX` tries
    /// does it give up, and hand the value back.
    pub fn push(&mut self, v: T) -> (r: Option<T>)
        requires
            old(self).may_push(v),
        ensures
            final(self).queue() == old(self).queue(),
            r is None ==> final(self).sent() == old(self).sent() + 1,
            r is Some ==> r == Some(v) && final(self).sent() == old(self).sent(),
            old(self).queue().spec_capacity() == 0 ==> r is Some,
            final(self).goes_on_from(*old(self)),
            crate::model::tried_push(
                final(self).visits_since(*old(self)),
                old(self).queue().spec_capacity(),
                old(self).sent(),
                v,
                u64::MAX as nat,
                r,
            ),
    {
        self.push_within(v, PATIENCE)
    }

    /// Push a value onto the queue, in so many tries at most.
    ///
    /// Returns `None` as soon as the queue has taken the value, and the value itself where the
    /// queue was full at each try.
    pub fn push_within(&mut self, v: T, tries: u64) -> (r: Option<T>)
        requires
            old(self).may_push(v),
        ensures
            final(self).queue() == old(self).queue(),
            r is None ==> final(self).sent() == old(self).sent() + 1,
            r is Some ==> r == Some(v) && final(self).sent() == old(self).sent(),
            old(self).queue().spec_capacity() == 0 ==> r is Some,
            tries == 0 ==> r is Some,
            final(self).goes_on_from(*old(self)),
            crate::model::tried_push(
                final(self).visits_since(*old(self)),
                old(self).queue().spec_capacity(),
                old(self).sent(),
                v,
                tries as nat,
                r,
            ),
    {
        proof {
            use_type_invariant(&*self);
        }
        let mut t = v;
        let mut left: u64 = tries;
        while left > 0
            invariant
                left <= tries,
                t == v,
                old(self).may_push(v),
                self.queue() == old(self).queue(),
                self.sent() == old(self).sent(),
                self.goes_on_from(*old(self)),
                self.visits_since(*old(self)).len() == tries - left,
                forall|k: int|
                    0 <= k < tries - left ==> (#[trigger] self.visits_since(*old(self))[k]).refused(
                        old(self).queue().spec_capacity(),
                        old(self).sent(),
                    ),
            decreases left,
        {
            left = left - 1;
            let ghost middle = *self;
            let r = self.try_push(t);
            proof {
                Self::lemma_log_grows(*old(self), middle, *self);
                assert(self.visits_since(middle)[0] == self.visits().last());
            }
            match after_offer(r, left) {
                PushWait::Done => {
                    return None;
                },
                PushWait::Again(rv) => {
                    t = rv;
                },
                PushWait::GaveUp(rv) => {
                    return Some(rv);
                },
            }
        }
        Some(t)
    }

    /// Attempt to push a value onto the queue.
    ///
    /// If the queue is not full, the value will be added to the queue and the method will return
    /// `None`, signifying success. If the queue is full, this method will return `Some(v)`, where
    /// `v` is your original value.
    pub fn try_push(&mut self, v: T) -> (r: Option<T>)
        requires
            old(self).may_push(v),
        ensures
            final(self).queue() == old(self).queue(),
            r is None ==> final(self).sent() == old(self).sent() + 1,
            r is Some ==> r == Some(v) && final(self).sent() == old(self).sent(),
            old(self).queue().spec_capacity() == 0 ==> r is Some,
            final(self).goes_on_from(*old(self)),
            final(self).visits().len() == old(self).visits().len() + 1,
            r is None ==> final(self).visits().last().took(
                old(self).queue().spec_capacity(),
                old(self).sent(),
                v,
            ),
            r is Some ==> final(self).visits().last().refused(
                old(self).queue().spec_capacity(),
                old(self).sent(),
            ),
    {
        proof {
            use_type_invariant(&*self);
        }
        let pass = self.log.set_out();
        let (r, receipt) = self.buffer.try_push(pass, self.sent, v);
        self.log.enter(receipt);
        if r.is_none() {
            self.sent = self.sent + 1;
        }
        r
    }

    /// Returns the total capacity of this queue.
    ///
    /// This value represents the total capacity of the queue when it is full. It does not
    /// represent the current usage. For that, call `size()`.
    pub fn capacity(&self) -> (n: usize)
        ensures
            n == self.queue().spec_capacity(),
    {
        self.buffer.capacity()
    }

    /// Returns the current size of the queue, from 0 to `capacity` inclusive.
    ///
    /// It is no more than was pushed, so it is 0 on a new queue.
    pub fn size(&mut self) -> (n: usize)
        ensures
            n <= old(self).queue().spec_capacity(),
            n <= old(self).sent(),
            final(self).sent() == old(self).sent(),
            final(self).goes_on_from(*old(self)),
            final(self).visits().len() == old(self).visits().len() + 1,
            final(self).visits().last().looked(),
            ({
                let found = final(self).visits().last().before;
                n == if found.accepted.len() == old(self).sent() {
                    found.queued().len()
                } else {
                    0
                }
            }),
    {
        proof {
            use_type_invariant(&*self);
        }
        let pass = self.log.set_out();
        let (n, receipt) = self.buffer.sent_size(pass, self.sent);
        self.log.enter(receipt);
        n
    }

    /// Returns the available space in the queue, from 0 to `capacity` inclusive.
    ///
    /// This value represents the number of items that can be pushed onto the queue before it
    /// becomes full. No more than was pushed is missing from the capacity, so it is the whole
    /// capacity on a new queue.
    pub fn free_space(&mut self) -> (n: usize)
        ensures
            n <= old(self).queue().spec_capacity(),
            n >= old(self).queue().spec_capacity() - old(self).sent(),
            final(self).sent() == old(self).sent(),
            final(self).goes_on_from(*old(self)),
            final(self).visits().len() == old(self).visits().len() + 1,
            final(self).visits().last().looked(),
            ({
                let found = final(self).visits().last().before;
                n == old(self).queue().spec_capacity() - if found.accepted.len() == old(
                    self,
                ).sent() {
                    found.queued().len()
                } else {
                    0
                }
            }),
    {
        proof {
            use_type_invariant(&*self);
        }
        let pass = self.log.set_out();
        let (n, receipt) = self.buffer.free_space(pass, self.sent);
        self.log.enter(receipt);
        n
    }
}

impl<T> Consumer<T> {
    /// The queue is in use, and the log is one of its logs.
    #[verifier::type_invariant]
    spec fn wf(self) -> bool {
        self.buffer.is_open() && self.log.source() == self.buffer.lock()
    }

    /// The visits that this handle has paid to the lock of the queue.
    pub closed spec fn visits(&self) -> Seq<Visit<T>> {
        self.log.visits()
    }

    /// The number of visits that were begun and are not in the log.
    pub closed spec fn unlogged(&self) -> int {
        self.log.passes() - self.log.visits().len()
    }

    /// The visits since `before`.
    pub open spec fn visits_since(&self, before: Self) -> Seq<Visit<T>> {
        self.visits().skip(before.visits().len() as int)
    }

    /// The queue is the same and is in use, and what happened since `before` is in the log, which
    /// has only grown, by visits with histories that the queue can have.
    pub open spec fn goes_on_from(&self, before: Self) -> bool {
        &&& self.queue() == before.queue()
        &&& self.queue().is_open()
        &&& self.unlogged() == before.unlogged()
        &&& before.visits().is_prefix_of(self.visits())
        &&& forall|k: int|
            0 <= k < self.visits_since(before).len() ==> (#[trigger] self.visits_since(
                before,
            )[k]).lawful(self.queue().spec_capacity(), self.queue().says())
    }

    /// One run of visits after another is a run of visits.
    pub(crate) proof fn lemma_log_grows(start: Self, middle: Self, end: Self)
        requires
            middle.goes_on_from(start),
            end.goes_on_from(middle),
        ensures
            end.goes_on_from(start),
            end.visits_since(start) == middle.visits_since(start) + end.visits_since(middle),
    {
        assert(middle.visits() =~= end.visits().take(middle.visits().len() as int));
        assert(start.visits() =~= middle.visits().take(start.visits().len() as int));
        assert(start.visits() =~= end.visits().take(start.visits().len() as int));
        assert(end.visits_since(start) =~= middle.visits_since(start) + end.visits_since(middle));
        assert forall|k: int|
            0 <= k < end.visits_since(start).len() implies (#[trigger] end.visits_since(
            start,
        )[k]).lawful(end.queue().spec_capacity(), end.queue().says()) by {
            let n = middle.visits_since(start).len();
            if k < n {
                assert(end.visits_since(start)[k] == middle.visits_since(start)[k]);
            } else {
                assert(end.visits_since(start)[k] == end.visits_since(middle)[k - n]);
            }
        }
    }

    /// The queue behind the handle.
    pub closed spec fn queue(&self) -> Shared<T> {
        *self.buffer
    }

    /// The number of values that the queue has given through this handle.
    pub closed spec fn received(&self) -> nat {
        self.received as nat
    }

    /// The value may be popped next: what is said of the number that is up is true of it.
    pub open spec fn may_pop(&self, v: T) -> bool {
        (self.queue().says())(self.received(), v)
    }

    /// Pop a value off the queue.
    ///
    /// If the queue is empty, this tries again until it is not; the waiting strategy is a simple
    /// spin-wait. Only after `u64::MAX` tries does it give up, and return `None`.
    pub fn pop(&mut self) -> (r: Option<T>)
        ensures
            final(self).queue() == old(self).queue(),
            r matches Some(v) ==> old(self).may_pop(v) && final(self).received() == old(
                self,
            ).received() + 1,
            r is None ==> final(self).received() == old(self).received(),
            old(self).queue().spec_capacity() == 0 ==> r is None,
            final(self).goes_on_from(*old(self)),
            crate::model::tried_pop(
                final(self).visits_since(*old(self)),
                old(self).received(),
                u64::MAX as nat,
                r,
            ),
    {
        self.pop_within(PATIENCE)
    }

    /// Pop a value off the queue, in so many tries at most.
    ///
    /// Returns `None` where the queue was empty at each try.
    pub fn pop_within(&mut self, tries: u64) -> (r: Option<T>)
        ensures
            final(self).queue() == old(self).queue(),
            r matches Some(v) ==> old(self).may_pop(v) && final(self).received() == old(
                self,
            ).received() + 1,
            r is None ==> final(self).received() == old(self).received(),
            old(self).queue().spec_capacity() == 0 ==> r is None,
            tries == 0 ==> r is None,
            final(self).goes_on_from(*old(self)),
            crate::model::tried_pop(
                final(self).visits_since(*old(self)),
                old(self).received(),
                tries as nat,
                r,
            ),
    {
        proof {
            use_type_invariant(&*self);
        }
        let mut left: u64 = tries;
        while left > 0
            invariant
                left <= tries,
                self.queue() == old(self).queue(),
                self.received() == old(self).received(),
                self.goes_on_from(*old(self)),
                self.visits_since(*old(self)).len() == tries - left,
                forall|k: int|
                    0 <= k < tries - left ==> (#[trigger] self.visits_since(
                        *old(self),
                    )[k]).found_nothing(old(self).received()),
            decreases left,
        {
            left = left - 1;
            let ghost middle = *self;
            let r = self.try_pop();
            proof {
                Self::lemma_log_grows(*old(self), middle, *self);
                assert(self.visits_since(middle)[0] == self.visits().last());
            }
            match after_request(r, left) {
                PopWait::Done(v) => {
                    return Some(v);
                },
                PopWait::Again => {},
                PopWait::GaveUp => {
                    return None;
                },
            }
        }
        None
    }

    /// Attempt to pop a value off the queue.
    ///
    /// This method does not wait for a value. If the queue is empty, it returns `None`. If there
    /// is a value available, the method will return `Some(v)`, where `v` is the value being popped
    /// off the queue.
    pub fn try_pop(&mut self) -> (r: Option<T>)
        ensures
            final(self).queue() == old(self).queue(),
            r matches Some(v) ==> old(self).may_pop(v) && final(self).received() == old(
                self,
            ).received() + 1,
            r is None ==> final(self).received() == old(self).received(),
            old(self).queue().spec_capacity() == 0 ==> r is None,
            final(self).goes_on_from(*old(self)),
            final(self).visits().len() == old(self).visits().len() + 1,
            r matches Some(v) ==> final(self).visits().last().gave(old(self).received(), v),
            r is None ==> final(self).visits().last().found_nothing(old(self).received()),
    {
        proof {
            use_type_invariant(&*self);
        }
        let pass = self.log.set_out();
        let (r, receipt) = self.buffer.try_pop(pass, self.received);
        self.log.enter(receipt);
        if r.is_some() {
            self.received = self.received + 1;
        }
        r
    }

    /// Returns the total capacity of this queue.
    ///
    /// This value represents the total capacity of the queue when it is full. It does not
    /// represent the current usage. For that, call `size()`.
    pub fn capacity(&self) -> (n: usize)
        ensures
            n == self.queue().spec_capacity(),
    {
        self.buffer.capacity()
    }

    /// Returns the current size of the queue, from 0 to `capacity` inclusive.
    pub fn size(&mut self) -> (n: usize)
        ensures
            n <= old(self).queue().spec_capacity(),
            final(self).received() == old(self).received(),
            final(self).goes_on_from(*old(self)),
            final(self).visits().len() == old(self).visits().len() + 1,
            final(self).visits().last().looked(),
            n == final(self).visits().last().before.queued().len(),
    {
        proof {
            use_type_invariant(&*self);
        }
        let pass = self.log.set_out();
        let (n, receipt) = self.buffer.size(pass);
        self.log.enter(receipt);
        n
    }
}

} // verus!

//! What a bounded queue is, over mathematical sequences.
//!
//! A queue is the sequence of its values, oldest first, together with its capacity.

use vstd::prelude::*;

verus! {

/// What a bounded queue answers when `v` is offered to it: nothing where it takes `v`, and `v`
/// itself where it is full.
pub open spec fn push_reply<T>(queue: Seq<T>, capacity: nat, v: T) -> Option<T> {
    if queue.len() < capacity {
        None
    } else {
        Some(v)
    }
}

/// What a bounded queue holds after `v` was offered to it.
pub open spec fn after_push<T>(queue: Seq<T>, capacity: nat, v: T) -> Seq<T> {
    if queue.len() < capacity {
        queue.push(v)
    } else {
        queue
    }
}

/// What a queue answers to a request for its next value: the oldest one, where there is one.
pub open spec fn pop_reply<T>(queue: Seq<T>) -> Option<T> {
    if queue.len() > 0 {
        Some(queue[0])
    } else {
        None
    }
}

/// What a queue holds after its next value was asked for.
pub open spec fn after_pop<T>(queue: Seq<T>) -> Seq<T> {
    if queue.len() > 0 {
        queue.drop_first()
    } else {
        queue
    }
}

/// A call on a queue that can change it.
pub enum Op<T> {
    /// Offers a value.
    Push(T),
    /// Asks for the next value.
    Pop,
}

/// The number of pushes in a sequence of calls.
pub open spec fn pushes<T>(ops: Seq<Op<T>>) -> nat
    decreases ops.len(),
{
    if ops.len() == 0 {
        0
    } else {
        pushes(ops.drop_last()) + if ops.last() is Push {
            1nat
        } else {
            0
        }
    }
}

/// The number of pops in a sequence of calls.
pub open spec fn pops<T>(ops: Seq<Op<T>>) -> nat
    decreases ops.len(),
{
    if ops.len() == 0 {
        0
    } else {
        pops(ops.drop_last()) + if ops.last() is Pop {
            1nat
        } else {
            0
        }
    }
}

/// What a bounded queue holds after a sequence of calls.
pub open spec fn after<T>(queue: Seq<T>, capacity: nat, ops: Seq<Op<T>>) -> Seq<T>
    decreases ops.len(),
{
    if ops.len() == 0 {
        queue
    } else {
        let before = after(queue, capacity, ops.drop_last());
        match ops.last() {
            Op::Push(v) => after_push(before, capacity, v),
            Op::Pop => after_pop(before),
        }
    }
}

/// What a bounded queue holds after these values were offered to it, one after the other.
pub open spec fn after_pushes<T>(queue: Seq<T>, capacity: nat, values: Seq<T>) -> Seq<T>
    decreases values.len(),
{
    if values.len() == 0 {
        queue
    } else {
        after_push(after_pushes(queue, capacity, values.drop_last()), capacity, values.last())
    }
}

/// What a queue holds after it was asked for its next value so many times.
pub open spec fn after_pops<T>(queue: Seq<T>, times: nat) -> Seq<T>
    decreases times,
{
    if times == 0 {
        queue
    } else {
        after_pop(after_pops(queue, (times - 1) as nat))
    }
}

/// Says nothing of the values of a queue: any value may come at any place.
pub open spec fn anything<T>() -> spec_fn(nat, T) -> bool {
    |i: nat, v: T| true
}

/// Says of the values of a queue that they are these, in this order.
pub open spec fn exactly<T>(values: Seq<T>) -> spec_fn(nat, T) -> bool {
    |i: nat, v: T| i < values.len() && v == values[i as int]
}

/// What has passed through a queue since it was made.
#[verifier::ext_equal]
pub struct History<T> {
    /// The values that the queue has taken in, in the order in which they came.
    pub accepted: Seq<T>,
    /// The values that the queue has given out, in the order in which they went.
    pub taken: Seq<T>,
}

impl<T> History<T> {
    /// The history of a queue that has just been made.
    pub open spec fn empty() -> Self {
        History { accepted: Seq::empty(), taken: Seq::empty() }
    }

    /// The values that came and have not gone: what the queue holds.
    pub open spec fn queued(self) -> Seq<T> {
        self.accepted.skip(self.taken.len() as int)
    }

    /// A history that a queue of this capacity can have: the values went in the order in which
    /// they came, each once, and no more are waiting than the queue has room for.
    pub open spec fn valid(self, capacity: nat) -> bool {
        &&& self.taken.is_prefix_of(self.accepted)
        &&& self.queued().len() <= capacity
    }

    /// Each value that came is what `says` says of a value that so many came before.
    pub open spec fn follows(self, says: spec_fn(nat, T) -> bool) -> bool {
        forall|i: int| 0 <= i < self.accepted.len() ==> says(i as nat, #[trigger] self.accepted[i])
    }

    /// The history after `v` was offered to the queue.
    pub open spec fn push(self, capacity: nat, v: T) -> Self {
        match push_reply(self.queued(), capacity, v) {
            None => History { accepted: self.accepted.push(v), ..self },
            Some(_) => self,
        }
    }

    /// The history after the queue was asked for its next value.
    pub open spec fn pop(self) -> Self {
        match pop_reply(self.queued()) {
            None => self,
            Some(v) => History { taken: self.taken.push(v), ..self },
        }
    }

    /// The history after a call.
    pub open spec fn apply(self, capacity: nat, op: Op<T>) -> Self {
        match op {
            Op::Push(v) => self.push(capacity, v),
            Op::Pop => self.pop(),
        }
    }

    /// The history after the queue has given out all that it held.
    pub open spec fn drain(self) -> Self {
        History { taken: self.taken + self.queued(), ..self }
    }

    /// The history after a sequence of calls.
    pub open spec fn run(self, capacity: nat, ops: Seq<Op<T>>) -> Self
        decreases ops.len(),
    {
        if ops.len() == 0 {
            self
        } else {
            self.run(capacity, ops.drop_last()).apply(capacity, ops.last())
        }
    }

    /// Offering a value takes a valid history to a valid one, and does to what the queue holds
    /// what a push does.
    pub proof fn lemma_push(self, capacity: nat, v: T)
        requires
            self.valid(capacity),
        ensures
            self.push(capacity, v).valid(capacity),
            self.push(capacity, v).queued() == after_push(self.queued(), capacity, v),
    {
        assert(self.push(capacity, v).queued() =~= after_push(self.queued(), capacity, v));
    }

    /// Asking for a value takes a valid history to a valid one, and does to what the queue holds
    /// what a pop does.
    pub proof fn lemma_pop(self, capacity: nat)
        requires
            self.valid(capacity),
        ensures
            self.pop().valid(capacity),
            self.pop().queued() == after_pop(self.queued()),
    {
        assert(self.pop().queued() =~= after_pop(self.queued()));
        assert(self.pop().taken =~= self.accepted.take(self.pop().taken.len() as int));
    }

    /// Giving out all takes a valid history to a valid one, in which nothing is queued and what
    /// came is what went.
    pub proof fn lemma_drain(self, capacity: nat)
        requires
            self.valid(capacity),
        ensures
            self.drain().valid(capacity),
            self.drain().queued() == Seq::<T>::empty(),
            self.drain().taken == self.accepted,
    {
        assert(self.drain().taken =~= self.accepted);
        assert(self.drain().queued() =~= Seq::<T>::empty());
    }
}

/// One visit to the lock of a queue: the history of what is in it, at the moment at which the lock
/// was opened and at that at which it was closed.
#[verifier::ext_equal]
pub struct Visit<T> {
    /// The history that was found.
    pub before: History<T>,
    /// The history that was left.
    pub after: History<T>,
}

impl<T> Visit<T> {
    /// What was found and what was left are histories that the queue can have.
    pub open spec fn lawful(self, capacity: nat, says: spec_fn(nat, T) -> bool) -> bool {
        &&& self.before.valid(capacity)
        &&& self.before.follows(says)
        &&& self.after.valid(capacity)
        &&& self.after.follows(says)
    }

    /// The queue had room, and took in `v`, which `n` values came before. Nothing else happened.
    pub open spec fn took(self, capacity: nat, n: nat, v: T) -> bool {
        &&& self.before.accepted.len() == n
        &&& self.before.queued().len() < capacity
        &&& self.after.accepted == self.before.accepted.push(v)
        &&& self.after.taken == self.before.taken
    }

    /// Nothing happened, because the queue was full, or because it was not at the number `n`:
    /// another number of values had come, or there is no number behind `n`.
    pub open spec fn refused(self, capacity: nat, n: nat) -> bool {
        &&& self.after == self.before
        &&& self.before.queued().len() == capacity || self.before.accepted.len() != n || n
            == u64::MAX
    }

    /// The queue gave out `v`, the value that came with the number `n`, to whom had got the `n`
    /// values before it, and nothing else happened.
    pub open spec fn gave(self, n: nat, v: T) -> bool {
        &&& self.before.taken.len() == n
        &&& n < self.before.accepted.len()
        &&& v == self.before.accepted[n as int]
        &&& self.after.accepted == self.before.accepted
        &&& self.after.taken == self.before.taken.push(v)
    }

    /// Nothing happened, because the queue was empty, or because another number of values than `n`
    /// had gone.
    pub open spec fn found_nothing(self, n: nat) -> bool {
        &&& self.after == self.before
        &&& self.before.queued().len() == 0 || self.before.taken.len() != n
    }

    /// Nothing happened.
    pub open spec fn looked(self) -> bool {
        self.after == self.before
    }
}

/// These visits are the tries of a push of `v`, as the value that `n` values come before, with `r`
/// as its answer. It tries as long as it is refused, and hands the value back only when it was
/// refused at each of `tries` tries.
pub open spec fn tried_push<T>(
    visits: Seq<Visit<T>>,
    capacity: nat,
    n: nat,
    v: T,
    tries: nat,
    r: Option<T>,
) -> bool {
    match r {
        None => {
            &&& 0 < visits.len() <= tries
            &&& visits.last().took(capacity, n, v)
            &&& forall|k: int|
                0 <= k < visits.len() - 1 ==> (#[trigger] visits[k]).refused(capacity, n)
        },
        Some(w) => {
            &&& w == v
            &&& visits.len() == tries
            &&& forall|k: int| 0 <= k < tries ==> (#[trigger] visits[k]).refused(capacity, n)
        },
    }
}

/// These visits are the tries of a pop, of the value that `n` values come before, with `r` as its
/// answer. It tries as long as it finds nothing, and comes back without a value only when it found
/// nothing at each of `tries` tries.
pub open spec fn tried_pop<T>(visits: Seq<Visit<T>>, n: nat, tries: nat, r: Option<T>) -> bool {
    match r {
        Some(v) => {
            &&& 0 < visits.len() <= tries
            &&& visits.last().gave(n, v)
            &&& forall|k: int|
                0 <= k < visits.len() - 1 ==> (#[trigger] visits[k]).found_nothing(n)
        },
        None => {
            &&& visits.len() == tries
            &&& forall|k: int| 0 <= k < tries ==> (#[trigger] visits[k]).found_nothing(n)
        },
    }
}

} // verus!

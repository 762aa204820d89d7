//! Laws of the bounded queue.
//!
//! They are stated over the functions of [`crate::model`] that the contracts of the buffer, the
//! ledger and the handles use. Those on visits speak of what a call of a handle found in the queue
//! and left there.

use vstd::arithmetic::div_mod::*;
use vstd::arithmetic::power2::*;
use vstd::prelude::*;
use vstd::rwlock::RwLockPredicate;

use crate::guard::Bounded;
use crate::handles::{Consumer, Producer};
use crate::index;
use crate::ledger::Ledger;
use crate::model::{History, Op, Visit};
use crate::numbered::Numbered;

verus! {

/// First in, first out: whatever is pushed and popped, in whatever order, the values that have
/// come out are the first of those that have gone in, and the rest are in the queue.
pub proof fn law_fifo<T>(capacity: nat, ops: Seq<Op<T>>)
    ensures
        ({
            let end = History::<T>::empty().run(capacity, ops);
            &&& end.accepted == end.taken + end.queued()
            &&& end.queued() == crate::model::after(Seq::empty(), capacity, ops)
        }),
{
    let start = History::<T>::empty();
    assert(start.queued() =~= Seq::<T>::empty());
    law_history(start, capacity, ops);
    let end = start.run(capacity, ops);
    assert(end.accepted =~= end.taken + end.queued());
}

/// Pushes and pops lead from a history that a queue can have to such histories only. They add to
/// it and change nothing of it, and do to the queue what they do without a history.
pub proof fn law_history<T>(start: History<T>, capacity: nat, ops: Seq<Op<T>>)
    requires
        start.valid(capacity),
    ensures
        start.run(capacity, ops).valid(capacity),
        start.accepted.is_prefix_of(start.run(capacity, ops).accepted),
        start.taken.is_prefix_of(start.run(capacity, ops).taken),
        start.run(capacity, ops).queued() == crate::model::after(start.queued(), capacity, ops),
    decreases ops.len(),
{
    if ops.len() > 0 {
        let init = ops.drop_last();
        law_history(start, capacity, init);
        let mid = start.run(capacity, init);
        match ops.last() {
            Op::Push(v) => {
                mid.lemma_push(capacity, v);
            },
            Op::Pop => {
                mid.lemma_pop(capacity);
            },
        }
    }
}

/// First in, first out, between threads: in any state in which the lock of a queue can be found,
/// whoever used the handles and in whatever order, the ledger's account is that the values that
/// went out are the first of those that came in, the rest are waiting, and no more are waiting
/// than the queue has room for. What is said of the values is true of each that came, by its
/// number, and so of each that went.
pub proof fn law_shared_fifo<T>(condition: Bounded<T>, ledger: Numbered<T>)
    requires
        condition.inv(ledger),
    ensures
        ledger.history().accepted == ledger.history().taken + ledger.history().queued(),
        ledger.history().queued().len() <= condition.capacity,
        ledger.history().follows(condition.says),
        forall|k: int|
            0 <= k < ledger.history().taken.len() ==> (condition.says)(
                k as nat,
                #[trigger] ledger.history().taken[k],
            ),
{
    let h = ledger.history();
    ledger.lemma_history_valid();
    assert forall|k: int| 0 <= k < h.taken.len() implies (condition.says)(
        k as nat,
        #[trigger] h.taken[k],
    ) by {
        assert(h.taken[k] == h.accepted.take(h.taken.len() as int)[k]);
        assert(h.taken[k] == h.accepted[k]);
    }
    assert(h.accepted =~= h.taken + h.queued());
}

/// Nothing is lost, and nothing goes twice: over the whole life of a queue, what was pushed is
/// what was popped followed by what is destroyed at the end, which is what was still queued.
pub proof fn law_nothing_lost<T>(end: History<T>, capacity: nat)
    requires
        end.valid(capacity),
    ensures
        ({
            let destroyed = end.queued();
            &&& end.accepted == end.taken + destroyed
            &&& end.drain().taken == end.taken + destroyed
            &&& end.drain().taken == end.accepted
            &&& end.drain().queued() == Seq::<T>::empty()
        }),
{
    end.lemma_drain(capacity);
}

/// Emptying a queue is to pop as many values as it holds, and no more are to be had then.
pub proof fn law_drain_is_pops<T>(end: History<T>, capacity: nat)
    requires
        end.valid(capacity),
    ensures
        ({
            let pops = Seq::new(end.queued().len(), |i: int| Op::<T>::Pop);
            &&& end.run(capacity, pops) == end.drain()
            &&& crate::model::pop_reply(end.run(capacity, pops).queued()) is None
        }),
{
    end.lemma_drain(capacity);
    lemma_run_pops(end, capacity, end.queued().len());
    assert(end.queued().take(end.queued().len() as int) =~= end.queued());
}

/// So many pops give out the first so many of the values that are queued.
proof fn lemma_run_pops<T>(start: History<T>, capacity: nat, n: nat)
    requires
        start.valid(capacity),
        n <= start.queued().len(),
    ensures
        start.run(capacity, Seq::new(n, |i: int| Op::<T>::Pop)) == (History {
            taken: start.taken + start.queued().take(n as int),
            ..start
        }),
    decreases n,
{
    let pops = Seq::new(n, |i: int| Op::<T>::Pop);
    let end = start.run(capacity, pops);
    if n > 0 {
        lemma_run_pops(start, capacity, (n - 1) as nat);
        assert(pops.drop_last() =~= Seq::new((n - 1) as nat, |i: int| Op::<T>::Pop));
    }
    assert(end.taken =~= start.taken + start.queued().take(n as int));
}

/// First in, first out, from end to end: where a queue is made to say that its values are exactly
/// these, which binds what its producer can push, what its consumer gets is the first of them, in
/// their order, none missing and none twice.
///
/// The condition is what the contracts of the consumer give: the value that it gets when it has got
/// `k` is what is said of the number `k`.
pub proof fn law_ends_fifo<T>(values: Seq<T>, received: Seq<T>)
    requires
        forall|k: int|
            0 <= k < received.len() ==> (crate::model::exactly(values))(
                k as nat,
                #[trigger] received[k],
            ),
    ensures
        received.is_prefix_of(values),
{
    if received.len() > 0 {
        let last = received.len() - 1;
        assert((crate::model::exactly(values))(last as nat, received[last]));
    }
    assert(received =~= values.take(received.len() as int));
}

/// The size of a queue is never above its capacity.
pub proof fn law_bounded<T>(queue: Seq<T>, capacity: nat, ops: Seq<Op<T>>)
    requires
        queue.len() <= capacity,
    ensures
        crate::model::after(queue, capacity, ops).len() <= capacity,
    decreases ops.len(),
{
    if ops.len() > 0 {
        law_bounded(queue, capacity, ops.drop_last());
    }
}

/// A push is refused exactly where the queue is full; then it hands the value back, and the queue
/// is as it was.
pub proof fn law_refused_push<T>(queue: Seq<T>, capacity: nat, v: T)
    requires
        queue.len() <= capacity,
    ensures
        crate::model::push_reply(queue, capacity, v) is Some <==> queue.len() == capacity,
        crate::model::push_reply(queue, capacity, v) is Some ==> {
            &&& crate::model::push_reply(queue, capacity, v) == Some(v)
            &&& crate::model::after_push(queue, capacity, v) == queue
        },
{
}

/// A pop answers `None` exactly where the queue is empty; then the queue is as it was.
pub proof fn law_empty_pop<T>(queue: Seq<T>)
    ensures
        crate::model::pop_reply(queue) is None <==> queue.len() == 0,
        crate::model::pop_reply(queue) is None ==> crate::model::after_pop(queue) == queue,
{
}

/// A value that was pushed comes out in its turn: after as many pops as there were values before
/// it, the next pop gives it back. On an empty queue it is the very next.
pub proof fn law_read_back<T>(queue: Seq<T>, capacity: nat, v: T)
    requires
        queue.len() < capacity,
    ensures
        crate::model::pop_reply(
            crate::model::after_pops(
                crate::model::after_push(queue, capacity, v),
                queue.len(),
            ),
        ) == Some(v),
        crate::model::after_pops(
            crate::model::after_push(queue, capacity, v),
            (queue.len() + 1) as nat,
        ) == Seq::<T>::empty(),
{
    let pushed = queue.push(v);
    lemma_after_pops(pushed, queue.len());
    lemma_after_pops(pushed, (queue.len() + 1) as nat);
}

/// So many pops leave what stood behind so many values.
proof fn lemma_after_pops<T>(queue: Seq<T>, n: nat)
    requires
        n <= queue.len(),
    ensures
        crate::model::after_pops(queue, n) == queue.skip(n as int),
    decreases n,
{
    if n > 0 {
        lemma_after_pops(queue, (n - 1) as nat);
        assert(queue.skip(n - 1).drop_first() =~= queue.skip(n as int));
    }
    assert(crate::model::after_pops(queue, n) =~= queue.skip(n as int));
}

/// The free space of a queue is the number of values that it still takes: pushed one after the
/// other, so many of them, and no more, are taken, in their order.
pub proof fn law_free_space<T>(queue: Seq<T>, capacity: nat, values: Seq<T>)
    requires
        queue.len() <= capacity,
    ensures
        ({
            let free = capacity - queue.len();
            let fitting = if values.len() <= free {
                values.len() as int
            } else {
                free
            };
            crate::model::after_pushes(queue, capacity, values) == queue + values.take(fitting)
        }),
    decreases values.len(),
{
    let free = capacity - queue.len();
    let fitting = if values.len() <= free {
        values.len() as int
    } else {
        free
    };
    if values.len() > 0 {
        law_free_space(queue, capacity, values.drop_last());
    }
    assert(crate::model::after_pushes(queue, capacity, values) =~= queue + values.take(fitting));
}

/// A new queue is empty: it holds nothing, answers `None` when it is asked for a value, and has
/// its whole capacity as free space.
pub proof fn law_new_queue<T>(ledger: Ledger<T>)
    requires
        ledger.wf(),
        ledger.history() == History::<T>::empty(),
    ensures
        ledger.history().queued() == Seq::<T>::empty(),
        crate::model::pop_reply(ledger.history().queued()) is None,
        ledger.spec_capacity() - ledger.history().queued().len() == ledger.spec_capacity(),
{
    assert(ledger.history().queued() =~= Seq::<T>::empty());
}

/// A push that is taken adds one to the size and takes one from the free space, a pop that gives a
/// value does the reverse, and others leave both as they were.
pub proof fn law_free_space_steps<T>(queue: Seq<T>, capacity: nat, v: T)
    requires
        queue.len() <= capacity,
    ensures
        ({
            let free = capacity - queue.len();
            let pushed = crate::model::after_push(queue, capacity, v);
            let popped = crate::model::after_pop(queue);
            &&& crate::model::push_reply(queue, capacity, v) is None ==> pushed.len() == queue.len()
                + 1 && capacity - pushed.len() == free - 1
            &&& crate::model::push_reply(queue, capacity, v) is Some ==> pushed.len() == queue.len()
                && capacity - pushed.len() == free
            &&& crate::model::pop_reply(queue) is Some ==> popped.len() == queue.len() - 1
                && capacity - popped.len() == free + 1
            &&& crate::model::pop_reply(queue) is None ==> popped.len() == queue.len() && capacity
                - popped.len() == free
        }),
{
}

/// The round trip: values that are pushed onto an empty queue with room for them are popped in
/// their order, and leave it empty again, so that the next round finds what this one found.
pub proof fn law_round_trip<T>(capacity: nat, values: Seq<T>)
    requires
        values.len() <= capacity,
    ensures
        ({
            let full = crate::model::after_pushes(Seq::empty(), capacity, values);
            &&& full == values
            &&& forall|k: int|
                0 <= k < values.len() ==> crate::model::pop_reply(
                    #[trigger] crate::model::after_pops(full, k as nat),
                ) == Some(values[k])
            &&& crate::model::after_pops(full, values.len()) == Seq::<T>::empty()
        }),
{
    law_free_space(Seq::<T>::empty(), capacity, values);
    let full = crate::model::after_pushes(Seq::empty(), capacity, values);
    assert(full =~= values);
    assert forall|k: int| 0 <= k < values.len() implies crate::model::pop_reply(
        #[trigger] crate::model::after_pops(full, k as nat),
    ) == Some(values[k]) by {
        lemma_after_pops(full, k as nat);
    }
    lemma_after_pops(full, values.len());
}

/// What the consumer does never costs the producer room: a push that would be taken now is still
/// taken after any number of pops.
pub proof fn law_pops_make_room<T>(queue: Seq<T>, capacity: nat, v: T, pops: nat)
    requires
        crate::model::push_reply(queue, capacity, v) is None,
    ensures
        crate::model::push_reply(crate::model::after_pops(queue, pops), capacity, v) is None,
    decreases pops,
{
    if pops > 0 {
        law_pops_make_room(queue, capacity, v, (pops - 1) as nat);
    }
}

/// What the producer does never changes what the consumer is about to get: a pop that would give
/// a value now still gives the same value after any pushes.
pub proof fn law_pushes_keep_front<T>(queue: Seq<T>, capacity: nat, values: Seq<T>)
    requires
        queue.len() > 0,
    ensures
        crate::model::pop_reply(crate::model::after_pushes(queue, capacity, values))
            == crate::model::pop_reply(queue),
    decreases values.len(),
{
    if values.len() > 0 {
        law_pushes_keep_front(queue, capacity, values.drop_last());
    }
}

/// As many pushes as there is free space are all taken, whatever is popped between them.
pub proof fn law_pushes_within_free_space<T>(queue: Seq<T>, capacity: nat, ops: Seq<Op<T>>)
    requires
        queue.len() + crate::model::pushes(ops) <= capacity,
    ensures
        forall|i: int| #![trigger ops[i]]
            0 <= i < ops.len() ==> (ops[i] matches Op::Push(v) ==> crate::model::push_reply(
                crate::model::after(queue, capacity, ops.take(i)),
                capacity,
                v,
            ) is None),
{
    assert forall|i: int| #![trigger ops[i]] 0 <= i < ops.len() implies (ops[i] matches Op::Push(
        v,
    ) ==> crate::model::push_reply(
        crate::model::after(queue, capacity, ops.take(i)),
        capacity,
        v,
    ) is None) by {
        lemma_size_after(queue, capacity, ops.take(i));
        lemma_counts_grow(ops, i + 1);
        assert(ops.take(i + 1).drop_last() =~= ops.take(i));
    }
}

/// As many pops as there are values all get one, whatever is pushed between them: each gets the
/// value that has as many values before it as there were pops before.
pub proof fn law_pops_within_size<T>(queue: Seq<T>, capacity: nat, ops: Seq<Op<T>>)
    requires
        crate::model::pops(ops) <= queue.len(),
    ensures
        forall|i: int| #![trigger ops[i]]
            0 <= i < ops.len() && ops[i] is Pop ==> crate::model::pop_reply(
                crate::model::after(queue, capacity, ops.take(i)),
            ) == Some(queue[crate::model::pops(ops.take(i)) as int]),
{
    assert forall|i: int| #![trigger ops[i]]
        0 <= i < ops.len() && ops[i] is Pop implies crate::model::pop_reply(
        crate::model::after(queue, capacity, ops.take(i)),
    ) == Some(queue[crate::model::pops(ops.take(i)) as int]) by {
        lemma_counts_grow(ops, i + 1);
        assert(ops.take(i + 1).drop_last() =~= ops.take(i));
        lemma_front_after(queue, capacity, ops.take(i));
        let front = queue.skip(crate::model::pops(ops.take(i)) as int);
        let end = crate::model::after(queue, capacity, ops.take(i));
        assert(front[0] == end.take(front.len() as int)[0]);
    }
}

/// The first so many calls hold no more pushes, and no more pops, than all of them.
proof fn lemma_counts_grow<T>(ops: Seq<Op<T>>, n: int)
    requires
        0 <= n <= ops.len(),
    ensures
        crate::model::pushes(ops.take(n)) <= crate::model::pushes(ops),
        crate::model::pops(ops.take(n)) <= crate::model::pops(ops),
    decreases ops.len(),
{
    if n == ops.len() {
        assert(ops.take(n) =~= ops);
    } else {
        lemma_counts_grow(ops.drop_last(), n);
        assert(ops.drop_last().take(n) =~= ops.take(n));
    }
}

/// A queue grows by no more than there are pushes.
proof fn lemma_size_after<T>(queue: Seq<T>, capacity: nat, ops: Seq<Op<T>>)
    ensures
        crate::model::after(queue, capacity, ops).len() <= queue.len() + crate::model::pushes(ops),
    decreases ops.len(),
{
    if ops.len() > 0 {
        lemma_size_after(queue, capacity, ops.drop_last());
    }
}

/// While there are no more pops than values, what is left of the values stands in front.
proof fn lemma_front_after<T>(queue: Seq<T>, capacity: nat, ops: Seq<Op<T>>)
    requires
        crate::model::pops(ops) <= queue.len(),
    ensures
        queue.skip(crate::model::pops(ops) as int).is_prefix_of(
            crate::model::after(queue, capacity, ops),
        ),
    decreases ops.len(),
{
    let k = crate::model::pops(ops) as int;
    let end = crate::model::after(queue, capacity, ops);
    if ops.len() > 0 {
        lemma_front_after(queue, capacity, ops.drop_last());
        let before = crate::model::after(queue, capacity, ops.drop_last());
        let front = queue.skip(crate::model::pops(ops.drop_last()) as int);
        assert forall|i: int| 0 <= i < front.len() implies before[i] == front[i] by {
            assert(front[i] == before.take(front.len() as int)[i]);
        }
    }
    assert(queue.skip(k) =~= end.take(queue.len() - k));
}

/// Absolute positions and positions that only ever grow lead to the same slots of a ring, and go
/// on doing so when a position wraps around at the end of the `usize` range.
pub proof fn law_positions(pos: int, n: usize)
    requires
        is_pow2(n as int),
    ensures
        (pos % (n as int)) % (n as int) == pos % (n as int),
        (pos % index::word()) % (n as int) == pos % (n as int),
{
    index::lemma_pow2_positive(n as int);
    lemma_mod_twice(pos, n as int);
    index::lemma_wrapped_position(pos, n);
}

/// The two ends do not get in each other's way: on a queue that is neither empty nor full, a push
/// and a pop have the same answers, and leave the same queue, in either order.
pub proof fn law_ends_commute<T>(queue: Seq<T>, capacity: nat, v: T)
    requires
        0 < queue.len() < capacity,
    ensures
        crate::model::after_pop(crate::model::after_push(queue, capacity, v))
            == crate::model::after_push(crate::model::after_pop(queue), capacity, v),
        crate::model::pop_reply(crate::model::after_push(queue, capacity, v))
            == crate::model::pop_reply(queue),
        crate::model::push_reply(crate::model::after_pop(queue), capacity, v)
            == crate::model::push_reply(queue, capacity, v),
{
    assert(queue.push(v).drop_first() =~= queue.drop_first().push(v));
}

/// A push waits: it hands its value back only when it was refused at each of its tries, all of
/// them, and whenever it found its number up at a try, the queue was full then. A try that finds
/// the number up and room in the queue is the last one, and the value goes in.
pub proof fn law_push_waits<T>(
    visits: Seq<Visit<T>>,
    capacity: nat,
    says: spec_fn(nat, T) -> bool,
    n: nat,
    v: T,
    tries: nat,
    r: Option<T>,
)
    requires
        forall|k: int| 0 <= k < visits.len() ==> (#[trigger] visits[k]).lawful(capacity, says),
        crate::model::tried_push(visits, capacity, n, v, tries, r),
        n < u64::MAX,
    ensures
        r == None::<T> || r == Some(v),
        visits.len() <= tries,
        r is Some ==> visits.len() == tries,
        r is Some ==> forall|k: int|
            0 <= k < tries && (#[trigger] visits[k]).before.accepted.len() == n
                ==> visits[k].before.accepted.len() - visits[k].before.taken.len() == capacity,
        forall|k: int|
            0 <= k < visits.len() && (#[trigger] visits[k]).before.accepted.len() == n
                && visits[k].before.accepted.len() - visits[k].before.taken.len() < capacity ==> {
                &&& r is None
                &&& k == visits.len() - 1
                &&& visits[k].after.accepted == visits[k].before.accepted.push(v)
            },
        forall|k: int|
            0 <= k < visits.len() && (r is Some || k < visits.len() - 1) ==> (
            #[trigger] visits[k]).after == visits[k].before,
        r is None ==> {
            let last = visits.last();
            &&& last.before.accepted.len() == n
            &&& last.after.accepted == last.before.accepted.push(v)
            &&& last.after.taken == last.before.taken
        },
{
    assert forall|k: int|
        0 <= k < visits.len() && (#[trigger] visits[k]).before.accepted.len() == n
            && visits[k].before.accepted.len() - visits[k].before.taken.len() < capacity implies {
        &&& r is None
        &&& k == visits.len() - 1
        &&& visits[k].after.accepted == visits[k].before.accepted.push(v)
    } by {
        let found = visits[k].before;
        assert(found.taken.len() <= found.accepted.len());
        assert(found.queued().len() == found.accepted.len() - found.taken.len());
    }
}

/// A pop waits: it comes back without a value only when it found none at each of its tries, all
/// of them, and whenever it found its number up at a try, all that ever came had gone by then. A
/// try that finds the number up and a value in the queue is the last one, and gives out that value.
pub proof fn law_pop_waits<T>(
    visits: Seq<Visit<T>>,
    capacity: nat,
    says: spec_fn(nat, T) -> bool,
    n: nat,
    tries: nat,
    r: Option<T>,
)
    requires
        forall|k: int| 0 <= k < visits.len() ==> (#[trigger] visits[k]).lawful(capacity, says),
        crate::model::tried_pop(visits, n, tries, r),
    ensures
        visits.len() <= tries,
        r is None ==> visits.len() == tries,
        r is None ==> forall|k: int|
            0 <= k < tries && (#[trigger] visits[k]).before.taken.len() == n
                ==> visits[k].before.accepted == visits[k].before.taken,
        forall|k: int|
            0 <= k < visits.len() && (#[trigger] visits[k]).before.taken.len() == n && n
                < visits[k].before.accepted.len() ==> {
                &&& r == Some(visits[k].before.accepted[n as int])
                &&& k == visits.len() - 1
            },
        forall|k: int|
            0 <= k < visits.len() && (r is None || k < visits.len() - 1) ==> (
            #[trigger] visits[k]).after == visits[k].before,
        r matches Some(v) ==> {
            let last = visits.last();
            &&& last.before.taken.len() == n
            &&& last.before.accepted[n as int] == v
            &&& last.after.accepted == last.before.accepted
            &&& last.after.taken == last.before.taken.push(v)
            &&& says(n, v)
        },
{
    assert forall|k: int|
        0 <= k < visits.len() && (#[trigger] visits[k]).before.taken.len() == n && n
            < visits[k].before.accepted.len() implies {
        &&& r == Some(visits[k].before.accepted[n as int])
        &&& k == visits.len() - 1
    } by {
        assert(visits[k].before.queued().len() == visits[k].before.accepted.len() - n);
    }
    if r is None {
        assert forall|k: int|
            0 <= k < tries && (#[trigger] visits[k]).before.taken.len()
                == n implies visits[k].before.accepted == visits[k].before.taken by {
            let found = visits[k].before;
            assert(found.queued().len() == found.accepted.len() - found.taken.len());
            assert(found.accepted.take(found.taken.len() as int) =~= found.accepted);
        }
    }
}

/// To try again is to go on trying: a push that was refused at all its tries, and is made again
/// with more tries, is one push with the tries of both. So it is for a pop that found nothing.
pub proof fn law_tries_add_up<T>(
    first: Seq<Visit<T>>,
    second: Seq<Visit<T>>,
    capacity: nat,
    n: nat,
    v: T,
    a: nat,
    b: nat,
    r: Option<T>,
)
    ensures
        crate::model::tried_push(first, capacity, n, v, a, Some(v)) && crate::model::tried_push(
            second,
            capacity,
            n,
            v,
            b,
            r,
        ) ==> crate::model::tried_push(first + second, capacity, n, v, a + b, r),
        crate::model::tried_pop(first, n, a, None) && crate::model::tried_pop(second, n, b, r)
            ==> crate::model::tried_pop(first + second, n, a + b, r),
{
    let both = first + second;
    assert forall|k: int| 0 <= k < both.len() implies #[trigger] both[k] == if k < first.len() {
        first[k]
    } else {
        second[k - first.len()]
    } by {}
}

/// A push or a pop without waiting is one try of one that waits.
pub proof fn law_one_try<T>(x: Visit<T>, capacity: nat, n: nat, v: T)
    ensures
        x.took(capacity, n, v) <==> crate::model::tried_push(seq![x], capacity, n, v, 1, None),
        x.refused(capacity, n) <==> crate::model::tried_push(seq![x], capacity, n, v, 1, Some(v)),
        x.gave(n, v) <==> crate::model::tried_pop(seq![x], n, 1, Some(v)),
        x.found_nothing(n) <==> crate::model::tried_pop::<T>(seq![x], n, 1, None),
{
    assert(seq![x][0] == x);
}

/// Room is used: a queue whose producer has got `n` values in refuses the next one only where it
/// is full, so only where at least its capacity came, and all of them but that many have gone.
/// While fewer values than the capacity came, none is refused.
pub proof fn law_room_is_used<T>(
    x: Visit<T>,
    capacity: nat,
    says: spec_fn(nat, T) -> bool,
    n: nat,
)
    requires
        x.lawful(capacity, says),
        x.before.accepted.len() == n,
        n < u64::MAX,
    ensures
        x.refused(capacity, n) ==> n - x.before.taken.len() == capacity,
        x.refused(capacity, n) ==> n >= capacity,
        n < capacity ==> !x.refused(capacity, n),
        x.before.taken.len() > n - capacity ==> !x.refused(capacity, n),
{
}

/// A value is found: a queue whose consumer has got `n` values out has nothing for it only where no
/// more than those ever came. What comes next is the value with the number `n`, and no other.
pub proof fn law_value_is_found<T>(
    x: Visit<T>,
    capacity: nat,
    says: spec_fn(nat, T) -> bool,
    n: nat,
    v: T,
)
    requires
        x.lawful(capacity, says),
        x.before.taken.len() == n,
    ensures
        x.found_nothing(n) ==> x.before.accepted.len() == n,
        n < x.before.accepted.len() ==> !x.found_nothing(n),
        x.gave(n, v) ==> n < x.before.accepted.len() && v == x.before.accepted[n as int],
{
    assert(x.before.queued().len() == x.before.accepted.len() - n);
}

/// A value that was taken in is the value that is given out: where one visit takes in `v` as the
/// value with the number `n`, a later visit with that number gives out nothing but `v`, and is not
/// told that there is nothing.
pub proof fn law_handover<T>(
    x: Visit<T>,
    y: Visit<T>,
    capacity: nat,
    says: spec_fn(nat, T) -> bool,
    n: nat,
    v: T,
    u: T,
)
    requires
        y.lawful(capacity, says),
        x.took(capacity, n, v),
        x.after.accepted.is_prefix_of(y.before.accepted),
        y.before.taken.len() == n,
    ensures
        y.gave(n, u) ==> u == v,
        !y.found_nothing(n),
        y.before.accepted[n as int] == v,
{
    assert(x.after.accepted[n as int] == v);
    assert(y.before.accepted.take(x.after.accepted.len() as int)[n as int] == v);
    assert(y.before.queued().len() == y.before.accepted.len() - n);
}

/// A visit does one thing: a push that goes in adds one value to those that came and none to those
/// that went, a pop that brings something adds one to those that went and none to those that came,
/// and all other visits add nothing.
pub proof fn law_visit_changes<T>(
    x: Visit<T>,
    capacity: nat,
    says: spec_fn(nat, T) -> bool,
    n: nat,
    v: T,
)
    requires
        x.lawful(capacity, says),
    ensures
        x.took(capacity, n, v) ==> {
            &&& x.before.accepted.len() - x.before.taken.len() < capacity
            &&& x.after.accepted.len() == n + 1
            &&& x.after.accepted[n as int] == v
            &&& x.after.queued() == x.before.queued().push(v)
            &&& x.after.taken == x.before.taken
            &&& says(n, v)
        },
        x.gave(n, v) ==> {
            &&& x.after.taken.len() == n + 1
            &&& x.after.taken[n as int] == v
            &&& x.before.queued() == seq![v] + x.after.queued()
            &&& x.after.accepted == x.before.accepted
            &&& says(n, v)
        },
        x.refused(capacity, n) || x.found_nothing(n) || x.looked() ==> {
            &&& x.after.accepted == x.before.accepted
            &&& x.after.taken == x.before.taken
        },
{
    if x.took(capacity, n, v) {
        assert(x.before.queued().len() == x.before.accepted.len() - x.before.taken.len());
        assert(x.after.accepted[n as int] == v);
        assert(x.after.queued() =~= x.before.queued().push(v));
    }
    if x.gave(n, v) {
        assert(x.after.taken[n as int] == v);
        assert(x.before.queued() =~= seq![v] + x.after.queued());
    }
}

/// A producer stays on its queue, which stays in use, and keeps its log: nothing of it changes,
/// and what is added by two calls is what the first adds followed by what the second adds.
pub proof fn law_producer_log<T>(start: Producer<T>, middle: Producer<T>, end: Producer<T>)
    requires
        middle.goes_on_from(start),
        end.goes_on_from(middle),
    ensures
        end.goes_on_from(start),
        end.queue() == start.queue(),
        end.queue().is_open(),
        end.unlogged() == start.unlogged(),
        start.visits().is_prefix_of(end.visits()),
        end.visits() == start.visits() + middle.visits_since(start) + end.visits_since(middle),
        forall|k: int|
            start.visits().len() <= k < end.visits().len() ==> {
                &&& (#[trigger] end.visits()[k]).before.valid(end.queue().spec_capacity())
                &&& end.visits()[k].before.follows(end.queue().says())
                &&& end.visits()[k].after.valid(end.queue().spec_capacity())
                &&& end.visits()[k].after.follows(end.queue().says())
            },
{
    Producer::lemma_log_grows(start, middle, end);
    assert(end.visits() =~= start.visits() + middle.visits_since(start) + end.visits_since(middle));
    assert forall|k: int| start.visits().len() <= k < end.visits().len() implies (
    #[trigger] end.visits()[k]).lawful(end.queue().spec_capacity(), end.queue().says()) by {
        assert(end.visits()[k] == end.visits_since(start)[k - start.visits().len()]);
    }
}

/// A consumer stays on its queue, which stays in use, and keeps its log: nothing of it changes,
/// and what is added by two calls is what the first adds followed by what the second adds.
pub proof fn law_consumer_log<T>(start: Consumer<T>, middle: Consumer<T>, end: Consumer<T>)
    requires
        middle.goes_on_from(start),
        end.goes_on_from(middle),
    ensures
        end.goes_on_from(start),
        end.queue() == start.queue(),
        end.queue().is_open(),
        end.unlogged() == start.unlogged(),
        start.visits().is_prefix_of(end.visits()),
        end.visits() == start.visits() + middle.visits_since(start) + end.visits_since(middle),
        forall|k: int|
            start.visits().len() <= k < end.visits().len() ==> {
                &&& (#[trigger] end.visits()[k]).before.valid(end.queue().spec_capacity())
                &&& end.visits()[k].before.follows(end.queue().says())
                &&& end.visits()[k].after.valid(end.queue().spec_capacity())
                &&& end.visits()[k].after.follows(end.queue().says())
            },
{
    Consumer::lemma_log_grows(start, middle, end);
    assert(end.visits() =~= start.visits() + middle.visits_since(start) + end.visits_since(middle));
    assert forall|k: int| start.visits().len() <= k < end.visits().len() implies (
    #[trigger] end.visits()[k]).lawful(end.queue().spec_capacity(), end.queue().says()) by {
        assert(end.visits()[k] == end.visits_since(start)[k - start.visits().len()]);
    }
}

/// Where nothing is said of the values of a queue, every value may be pushed, and every one that
/// comes may be popped.
pub proof fn law_any_value<T>(p: Producer<T>, c: Consumer<T>, v: T)
    requires
        p.queue() == c.queue(),
        p.queue().says() == crate::model::anything::<T>(),
    ensures
        p.may_push(v),
        c.may_pop(v),
{
}

/// A queue can be made exactly where there is a power of two, not below its capacity, of which so
/// many values, and so many slots, take no more bytes than a `usize` and an allocation can have.
pub proof fn law_fits<T>(capacity: int)
    requires
        capacity >= 0,
    ensures
        crate::memory::fits::<T>(capacity) <==> exists|p: int|
            {
                &&& #[trigger] is_pow2(p)
                &&& capacity <= p <= usize::MAX
                &&& p * vstd::layout::size_of::<T>() <= usize::MAX
                &&& p * vstd::layout::size_of::<Option<T>>() <= isize::MAX
            },
{
    let value = vstd::layout::size_of::<T>() as int;
    let slot = vstd::layout::size_of::<Option<T>>() as int;
    let fit = |p: int|
        {
            &&& is_pow2(p)
            &&& capacity <= p <= usize::MAX
            &&& p * value <= usize::MAX
            &&& p * slot <= isize::MAX
        };
    reveal_with_fuel(is_pow2, 1);
    let least = index::lemma_next_power_of_two_exists(capacity, 1);
    index::lemma_largest_power_of_two(least);
    if crate::memory::fits::<T>(capacity) {
        index::lemma_half_is_power_of_two();
        assert(fit(least));
    }
    if exists|p: int| #[trigger] is_pow2(p) && fit(p) {
        let p = choose|p: int| #[trigger] is_pow2(p) && fit(p);
        index::lemma_largest_power_of_two(p);
        assert forall|q: int| #[trigger] index::is_next_power_of_two(capacity, q) implies q * value
            <= usize::MAX && q * slot <= isize::MAX by {
            assert(0 <= q * value <= p * value && 0 <= q * slot <= p * slot) by (nonlinear_arith)
                requires
                    0 <= q <= p,
                    value >= 0,
                    slot >= 0,
            ;
        }
    }
}

} // verus!

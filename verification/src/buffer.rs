//! The ring buffer.

use vstd::arithmetic::div_mod::*;
use vstd::arithmetic::power2::*;
use vstd::prelude::*;

use crate::destroyed::Destroyed;
use crate::index;

verus! {

/// The memory of a queue: a ring of slots, with a head and a tail that mark the part in use.
///
/// Head and tail are positions that only ever grow, and wrap around at the end of the `usize`
/// range; the slot of a position is its remainder by the number of slots.
pub struct Buffer<T> {
    /// The slots of the ring. A slot holds a value exactly where its position is in use.
    slots: Vec<Option<T>>,
    /// The bounded size as specified by the user.
    capacity: usize,
    /// The number of slots: the next power of two that is not below `capacity`.
    allocated_size: usize,
    /// Position of the oldest value.
    head: usize,
    /// Position after the newest value.
    tail: usize,
    /// The values that were destroyed here.
    destroyed: Destroyed<T>,
}

/// Allocates the slots for a queue of `capacity` values: the next power of two of them, each
/// empty.
fn allocate_buffer<T>(capacity: usize) -> (slots: Vec<Option<T>>)
    requires
        crate::memory::fits::<T>(capacity as int),
    ensures
        index::is_next_power_of_two(capacity as int, slots@.len() as int),
        forall|j: int| 0 <= j < slots@.len() ==> slots@[j] is None,
{
    let adjusted_size = index::next_power_of_two(capacity);
    let mut slots: Vec<Option<T>> = Vec::with_capacity(adjusted_size);
    while slots.len() < adjusted_size
        invariant
            slots@.len() <= adjusted_size,
            forall|j: int| 0 <= j < slots@.len() ==> slots@[j] is None,
        decreases adjusted_size - slots@.len(),
    {
        slots.push(None);
    }
    slots
}

impl<T> Buffer<T> {
    /// The part of the invariant that holds at every moment, also within a call.
    #[verifier::type_invariant]
    spec fn is_ring(self) -> bool {
        is_pow2(self.slots@.len() as int) && self.allocated_size == self.slots@.len()
    }

    /// The number of values in the ring: the distance from head to tail.
    spec fn count(&self) -> int {
        (self.tail - self.head) % index::word()
    }

    /// The slot of the value that has `i` values before it.
    spec fn slot(&self, i: int) -> int {
        (self.head + i) % (self.slots@.len() as int)
    }

    /// How many positions the slot `j` lies behind the head.
    spec fn offset(&self, j: int) -> int {
        (j - self.head) % (self.slots@.len() as int)
    }

    /// The invariant: the ring has the size that its capacity asks for, no more values than its
    /// capacity, and values in those slots, and in no others, that lie between head and tail.
    pub closed spec fn wf(&self) -> bool {
        &&& index::is_next_power_of_two(self.capacity as int, self.slots@.len() as int)
        &&& self.allocated_size == self.slots@.len()
        &&& self.count() <= self.capacity
        &&& forall|j: int|
            0 <= j < self.slots@.len() ==> (#[trigger] self.slots@[j] is Some <==> self.offset(j)
                < self.count())
    }

    /// The number of values that the queue takes before it is full.
    pub closed spec fn spec_capacity(&self) -> nat {
        self.capacity as nat
    }

    /// The values that were destroyed in the buffer, in the order in which that happened.
    pub closed spec fn destroyed(&self) -> Seq<T> {
        self.destroyed@
    }

    /// The number of slots of the ring.
    pub closed spec fn spec_allocated_size(&self) -> nat {
        self.slots@.len()
    }

    /// The invariant bounds the queue by its capacity, and makes the ring the next power of two.
    pub proof fn law_bounded(&self)
        requires
            self.wf(),
        ensures
            self@.len() <= self.spec_capacity(),
            index::is_next_power_of_two(
                self.spec_capacity() as int,
                self.spec_allocated_size() as int,
            ),
    {
        self.lemma_count();
    }

    /// Slots and offsets undo each other.
    proof fn lemma_slot_offset(&self)
        requires
            self.slots@.len() > 0,
        ensures
            forall|i: int|
                0 <= i < self.slots@.len() ==> 0 <= #[trigger] self.slot(i) < self.slots@.len()
                    && self.offset(self.slot(i)) == i,
            forall|j: int|
                0 <= j < self.slots@.len() ==> 0 <= #[trigger] self.offset(j) < self.slots@.len()
                    && self.slot(self.offset(j)) == j,
    {
        let n = self.slots@.len() as int;
        assert forall|i: int| 0 <= i < n implies 0 <= #[trigger] self.slot(i) < n && self.offset(
            self.slot(i),
        ) == i by {
            lemma_sub_mod_noop(self.head + i, self.head as int, n);
            lemma_sub_mod_noop((self.head + i) % n, self.head as int, n);
            lemma_mod_twice(self.head + i, n);
            lemma_small_mod(i as nat, n as nat);
        }
        assert forall|j: int| 0 <= j < n implies 0 <= #[trigger] self.offset(j) < n && self.slot(
            self.offset(j),
        ) == j by {
            lemma_add_mod_noop_right(self.head as int, j - self.head, n);
            lemma_small_mod(j as nat, n as nat);
        }
    }

    /// The number of values, without the remainder.
    proof fn lemma_count(&self)
        ensures
            self.count() == if self.head <= self.tail {
                self.tail - self.head
            } else {
                self.tail - self.head + index::word()
            },
    {
        if self.head <= self.tail {
            lemma_small_mod((self.tail - self.head) as nat, index::word() as nat);
        } else {
            lemma_mod_add_multiples_vanish(self.tail - self.head, index::word());
            lemma_small_mod((self.tail - self.head + index::word()) as nat, index::word() as nat);
        }
    }

    /// Taking the oldest value out of a ring and moving the head past it keeps the invariant,
    /// and leaves the other values in their order.
    proof fn lemma_head_advanced(self, before: Self)
        requires
            before.wf(),
            before.count() > 0,
            self.slots@ == before.slots@.update(before.slot(0), None),
            self.capacity == before.capacity,
            self.allocated_size == before.allocated_size,
            self.head == (before.head + 1) % index::word(),
            before.head < usize::MAX ==> self.head == before.head + 1,
            before.head == usize::MAX ==> self.head == 0,
            self.tail == before.tail,
        ensures
            self.wf(),
            before.slots@[before.slot(0)] == Some(before@[0]),
            self@ == before@.drop_first(),
    {
        let n = self.slots@.len() as int;
        index::lemma_pow2_positive(n);
        before.lemma_slot_offset();
        self.lemma_slot_offset();
        before.lemma_count();
        self.lemma_count();
        index::lemma_wrapped_position(before.head + 1, self.allocated_size);
        assert forall|i: int| 0 <= i < n - 1 implies #[trigger] self.slot(i) == before.slot(
            i + 1,
        ) by {
            lemma_add_mod_noop_right(i, self.head as int, n);
            lemma_add_mod_noop_right(i, before.head + 1, n);
        }
        assert forall|j: int| 0 <= j < n implies (#[trigger] self.slots@[j] is Some
            <==> self.offset(j) < self.count()) by {
            lemma_sub_mod_noop_right(j, self.head as int, n);
            lemma_sub_mod_noop_right(j, before.head + 1, n);
            index::lemma_mod_predecessor(j - before.head, n);
        }
        assert(self@ =~= before@.drop_first());
    }

    /// Putting a value into the slot at the tail of a ring that is not full and moving the tail
    /// past it keeps the invariant, and adds the value behind the others.
    proof fn lemma_tail_advanced(self, before: Self, v: T)
        requires
            before.wf(),
            before.count() < before.capacity,
            self.slots@ == before.slots@.update(before.slot(before.count()), Some(v)),
            self.capacity == before.capacity,
            self.allocated_size == before.allocated_size,
            self.head == before.head,
            before.tail < usize::MAX ==> self.tail == before.tail + 1,
            before.tail == usize::MAX ==> self.tail == 0,
        ensures
            self.wf(),
            self@ == before@.push(v),
    {
        let n = self.slots@.len() as int;
        index::lemma_pow2_positive(n);
        before.lemma_slot_offset();
        self.lemma_slot_offset();
        before.lemma_count();
        self.lemma_count();
        assert forall|j: int| 0 <= j < n implies (#[trigger] self.slots@[j] is Some
            <==> self.offset(j) < self.count()) by {
        }
        assert(self@ =~= before@.push(v));
    }

    /// The slot of the tail is the one behind the values.
    proof fn lemma_tail_slot(&self)
        requires
            self.is_ring(),
        ensures
            self.slot(self.count()) == self.tail as int % self.slots@.len() as int,
    {
        let n = self.slots@.len() as int;
        index::lemma_pow2_positive(n);
        index::lemma_wrapped_position(self.tail - self.head, self.allocated_size);
        lemma_add_mod_noop_right(self.head as int, self.count(), n);
        lemma_add_mod_noop_right(self.head as int, self.tail - self.head, n);
    }

    /// What the slot of position `pos` holds.
    pub closed spec fn at(&self, pos: int) -> Option<T> {
        self.slots@[pos % (self.slots@.len() as int)]
    }

    /// What a position holds rests on its slot alone: positions that lead to the same slot hold the
    /// same.
    pub proof fn law_at(&self, a: int, b: int)
        requires
            a % (self.spec_allocated_size() as int) == b % (self.spec_allocated_size() as int),
        ensures
            self.at(a) == self.at(b),
    {
    }

    /// This buffer is `before` but for the slot of position `pos`, which holds `content`.
    pub closed spec fn is_update(&self, before: Self, pos: int, content: Option<T>) -> bool {
        &&& self.slots@ == before.slots@.update(pos % (before.slots@.len() as int), content)
        &&& self.capacity == before.capacity
        &&& self.allocated_size == before.allocated_size
        &&& self.head == before.head
        &&& self.tail == before.tail
        &&& self.destroyed() == before.destroyed()
    }

    /// Loads and stores touch one slot: all its positions, absolute or grown, then hold what was
    /// put there, all positions of other slots hold what they held, and the queue has the size and
    /// the capacity that it had.
    pub proof fn law_update(&self, before: Self, pos: int, content: Option<T>)
        requires
            before.spec_allocated_size() > 0,
            self.is_update(before, pos, content),
        ensures
            self.at(pos) == content,
            forall|j: int|
                j % (before.spec_allocated_size() as int) == pos % (
                before.spec_allocated_size() as int) ==> #[trigger] self.at(j) == content,
            forall|j: int|
                j % (before.spec_allocated_size() as int) != pos % (
                before.spec_allocated_size() as int) ==> #[trigger] self.at(j) == before.at(j),
            self@.len() == before@.len(),
            self.spec_capacity() == before.spec_capacity(),
            self.spec_allocated_size() == before.spec_allocated_size(),
            self.destroyed() == before.destroyed(),
    {
        lemma_mod_bound(pos, before.slots@.len() as int);
    }

    /// Moves what the slot of position `pos` holds out of the ring.
    fn load(&mut self, pos: usize) -> (content: Option<T>)
        requires
            old(self).is_ring(),
        ensures
            content == old(self).at(pos as int),
            final(self).is_update(*old(self), pos as int, None),
        opens_invariants none
        no_unwind
    {
        let i = index::slot_index(pos, self.allocated_size);
        take_slot(&mut self.slots, i)
    }

    /// Puts a value into the ring at position `pos`, whose slot is empty.
    fn store(&mut self, pos: usize, v: T)
        requires
            old(self).is_ring(),
            old(self).at(pos as int) is None,
        ensures
            final(self).is_update(*old(self), pos as int, Some(v)),
    {
        let i = index::slot_index(pos, self.allocated_size);
        self.slots[i] = Some(v);
    }
}

/// Moves what slot `i` holds out of the slots, and leaves the slot empty.
///
/// The call is `std::mem::take`, which puts the default value of the type in the place of the
/// value that it returns; the default of an `Option` is `None`. It moves values and calls no code
/// of theirs, so it does not unwind.
#[verifier::external_body]
fn take_slot<T>(slots: &mut Vec<Option<T>>, i: usize) -> (content: Option<T>)
    requires
        i < old(slots)@.len(),
    ensures
        content == old(slots)@[i as int],
        final(slots)@ == old(slots)@.update(i as int, None),
    opens_invariants none
    no_unwind
{
    std::mem::take(&mut slots[i])
}

impl<T> Buffer<T> {
    /// Creates an empty buffer for a queue of `capacity` values.
    pub fn new(capacity: usize) -> (buffer: Self)
        requires
            crate::memory::fits::<T>(capacity as int),
        ensures
            buffer.wf(),
            buffer@ == Seq::<T>::empty(),
            buffer.spec_capacity() == capacity,
            index::is_next_power_of_two(capacity as int, buffer.spec_allocated_size() as int),
            buffer.destroyed() == Seq::<T>::empty(),
    {
        let slots = allocate_buffer(capacity);
        let allocated_size = slots.len();
        let destroyed = Destroyed::new();
        let buffer = Buffer { slots, capacity, allocated_size, head: 0, tail: 0, destroyed };
        proof {
            lemma_small_mod(0, index::word() as nat);
            index::lemma_pow2_positive(slots@.len() as int);
            buffer.lemma_slot_offset();
        }
        buffer
    }

    /// Attempt to pop a value off the buffer.
    ///
    /// If the buffer is empty, this returns `None`.
    pub fn try_pop(&mut self) -> (r: Option<T>)
        requires
            old(self).wf(),
        ensures
            final(self).wf(),
            final(self).spec_capacity() == old(self).spec_capacity(),
            final(self).spec_allocated_size() == old(self).spec_allocated_size(),
            final(self).destroyed() == old(self).destroyed(),
            r == crate::model::pop_reply(old(self)@),
            final(self)@ == crate::model::after_pop(old(self)@),
        opens_invariants none
        no_unwind
    {
        proof {
            self.lemma_count();
        }
        if self.head == self.tail {
            None
        } else {
            self.take_oldest()
        }
    }

    /// Moves what stands at the head out of the ring, and the head past it.
    fn take_oldest(&mut self) -> (content: Option<T>)
        requires
            old(self).is_ring(),
            old(self).head != old(self).tail,
        ensures
            final(self).is_ring(),
            final(self).count() == old(self).count() - 1,
            final(self).destroyed() == old(self).destroyed(),
            old(self).wf() ==> {
                &&& final(self).wf()
                &&& final(self).spec_capacity() == old(self).spec_capacity()
                &&& final(self).spec_allocated_size() == old(self).spec_allocated_size()
                &&& old(self)@.len() > 0
                &&& content == Some(old(self)@[0])
                &&& final(self)@ == old(self)@.drop_first()
            },
        opens_invariants none
        no_unwind
    {
        let ghost before = *self;
        proof {
            index::lemma_pow2_positive(self.slots@.len() as int);
            lemma_mod_bound(self.head as int, self.slots@.len() as int);
        }
        let current_head = self.head;
        let content = self.load(current_head);
        self.head = index::next_position(current_head);
        proof {
            before.lemma_count();
            self.lemma_count();
            if before.wf() {
                before.lemma_slot_offset();
                self.lemma_head_advanced(before);
            }
        }
        content
    }

    /// Takes the rest of the values out of the buffer, oldest first, and destroys each as it
    /// comes.
    fn destroy_all(&mut self) -> (destroyed: Ghost<Seq<T>>)
        requires
            old(self).is_ring(),
        ensures
            old(self).wf() ==> {
                &&& final(self).wf()
                &&& final(self).spec_capacity() == old(self).spec_capacity()
                &&& final(self).spec_allocated_size() == old(self).spec_allocated_size()
                &&& destroyed@ == old(self)@
                &&& final(self).destroyed() == old(self).destroyed() + old(self)@
                &&& final(self)@ == Seq::<T>::empty()
            },
        opens_invariants none
        no_unwind
    {
        let mut destroyed: Ghost<Seq<T>> = Ghost(Seq::empty());
        proof {
            self.lemma_count();
        }
        while self.head != self.tail
            invariant
                self.is_ring(),
                self.count() >= 0,
                old(self).wf() ==> {
                    &&& self.wf()
                    &&& self.spec_capacity() == old(self).spec_capacity()
                    &&& self.spec_allocated_size() == old(self).spec_allocated_size()
                    &&& destroyed@ + self@ == old(self)@
                    &&& self.destroyed() == old(self).destroyed() + destroyed@
                },
            decreases self.count(),
        {
            proof {
                self.lemma_count();
            }
            let content = self.take_oldest();
            let ghost taken = *self;
            if let Some(v) = content {
                self.destroyed.destroy(v);
            }
            proof {
                destroyed@ = destroyed@.push(content->0);
                if old(self).wf() {
                    assert(self@ =~= taken@);
                    assert(destroyed@ + self@ =~= old(self)@);
                }
            }
        }
        proof {
            self.lemma_count();
            if old(self).wf() {
                assert(self@ =~= Seq::<T>::empty());
                assert(destroyed@ =~= old(self)@);
            }
        }
        destroyed
    }

    /// Pops the rest of the values off the buffer, oldest first, and destroys each as it comes.
    ///
    /// The result is a ghost: the values that were destroyed, in that order.
    pub fn drain(&mut self) -> (destroyed: Ghost<Seq<T>>)
        requires
            old(self).wf(),
        ensures
            final(self).wf(),
            final(self).spec_capacity() == old(self).spec_capacity(),
            final(self).spec_allocated_size() == old(self).spec_allocated_size(),
            destroyed@ == old(self)@,
            final(self).destroyed() == old(self).destroyed() + old(self)@,
            final(self)@ == Seq::<T>::empty(),
        opens_invariants none
        no_unwind
    {
        self.destroy_all()
    }

    /// Pop a value off the buffer.
    ///
    /// This asks for a value until there is one. Nobody else can fill the buffer meanwhile, so a
    /// buffer that holds a value answers at once, and an empty one never would.
    pub fn pop(&mut self) -> (v: T)
        requires
            old(self).wf(),
            old(self)@.len() > 0,
        ensures
            final(self).wf(),
            final(self).spec_capacity() == old(self).spec_capacity(),
            final(self).spec_allocated_size() == old(self).spec_allocated_size(),
            final(self).destroyed() == old(self).destroyed(),
            v == old(self)@[0],
            final(self)@ == old(self)@.drop_first(),
    {
        loop
            invariant
                *self == *old(self),
                self.wf(),
                self@.len() > 0,
            decreases 0nat,
        {
            match self.try_pop() {
                None => {},
                Some(v) => {
                    return v;
                },
            }
        }
    }

    /// Attempt to push a value onto the buffer.
    ///
    /// If the buffer is full, this returns `Some(v)`, where `v` was the value attempting to be
    /// pushed. If the value was successfully pushed, this returns `None`.
    pub fn try_push(&mut self, v: T) -> (r: Option<T>)
        requires
            old(self).wf(),
        ensures
            final(self).wf(),
            final(self).spec_capacity() == old(self).spec_capacity(),
            final(self).spec_allocated_size() == old(self).spec_allocated_size(),
            final(self).destroyed() == old(self).destroyed(),
            r == crate::model::push_reply(old(self)@, old(self).spec_capacity(), v),
            final(self)@ == crate::model::after_push(old(self)@, old(self).spec_capacity(), v),
    {
        let current_tail = self.tail;
        if self.size() >= self.capacity {
            Some(v)
        } else {
            let ghost before = *self;
            proof {
                index::lemma_pow2_positive(self.slots@.len() as int);
                self.lemma_count();
                self.lemma_slot_offset();
                self.lemma_tail_slot();
            }
            self.store(current_tail, v);
            self.tail = index::next_position(current_tail);
            proof {
                self.lemma_tail_advanced(before, v);
            }
            None
        }
    }

    /// Push a value onto the buffer.
    ///
    /// This offers the value until it is taken. Nobody else can make room meanwhile, so a buffer
    /// with room takes it at once, and a full one never would.
    pub fn push(&mut self, v: T)
        requires
            old(self).wf(),
            old(self)@.len() < old(self).spec_capacity(),
        ensures
            final(self).wf(),
            final(self).spec_capacity() == old(self).spec_capacity(),
            final(self).spec_allocated_size() == old(self).spec_allocated_size(),
            final(self).destroyed() == old(self).destroyed(),
            final(self)@ == old(self)@.push(v),
    {
        let mut t = v;
        loop
            invariant
                *self == *old(self),
                self.wf(),
                self@.len() < self.spec_capacity(),
                t == v,
            decreases 0nat,
        {
            match self.try_push(t) {
                Some(rv) => {
                    t = rv;
                },
                None => {
                    return;
                },
            }
        }
    }

    /// Returns the number of values that the queue takes before it is full.
    pub fn capacity(&self) -> (n: usize)
        ensures
            n == self.spec_capacity(),
    {
        self.capacity
    }

    /// Returns the number of slots of the ring.
    pub fn allocated_size(&self) -> (n: usize)
        requires
            self.wf(),
        ensures
            n == self.spec_allocated_size(),
            index::is_next_power_of_two(self.spec_capacity() as int, n as int),
    {
        self.allocated_size
    }

    /// Returns the number of values in the queue, from 0 to `capacity` inclusive.
    pub fn size(&self) -> (n: usize)
        requires
            self.wf(),
        ensures
            n == self@.len(),
            n <= self.spec_capacity(),
    {
        proof {
            self.lemma_count();
        }
        self.tail.wrapping_sub(self.head)
    }

    /// Returns the number of values that can be pushed before the queue is full.
    pub fn free_space(&self) -> (n: usize)
        requires
            self.wf(),
        ensures
            n == self.spec_capacity() - self@.len(),
    {
        self.capacity() - self.size()
    }
}

impl<T> Drop for Buffer<T> {
    /// Destroys the values that are still in the buffer, oldest first. The ring is freed with it.
    fn drop(&mut self)
        ensures
            old(self).wf() ==> final(self).wf() && final(self)@ == Seq::<T>::empty(),
            old(self).wf() ==> final(self).destroyed() == old(self).destroyed() + old(self)@,
        opens_invariants none
        no_unwind
    {
        proof {
            use_type_invariant(&*self);
        }
        self.destroy_all();
    }
}

impl<T> View for Buffer<T> {
    type V = Seq<T>;

    /// The values in the queue, oldest first.
    closed spec fn view(&self) -> Seq<T> {
        Seq::new(self.count() as nat, |i: int| self.slots@[self.slot(i)]->0)
    }
}

} // verus!

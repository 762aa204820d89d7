//! The memory that a ring asks for.

use vstd::prelude::*;

use crate::index;

verus! {

/// The number of slots for this capacity is a `usize`.
pub open spec fn has_slots(capacity: int) -> bool {
    capacity <= usize::MAX / 2 + 1
}

/// A value for each slot takes a number of bytes that is a `usize`.
pub open spec fn values_fit<T>(capacity: int) -> bool {
    forall|p: int| #[trigger]
        index::is_next_power_of_two(capacity, p) ==> p * vstd::layout::size_of::<T>() <= usize::MAX
}

/// The slots, each of which can be empty too, take no more bytes than an allocation can have.
pub open spec fn slots_fit<T>(capacity: int) -> bool {
    forall|p: int| #[trigger]
        index::is_next_power_of_two(capacity, p) ==> p * vstd::layout::size_of::<Option<T>>()
            <= isize::MAX
}

/// A ring of this capacity can be asked for: the number of its slots, and their bytes, do not
/// overflow. Whether there is so much memory is another question.
pub open spec fn fits<T>(capacity: int) -> bool {
    has_slots(capacity) && values_fit::<T>(capacity) && slots_fit::<T>(capacity)
}

/// Returns the number of bytes that values in all slots take, or `None` where it overflows.
pub fn value_bytes<T>(capacity: usize) -> (bytes: Option<usize>)
    requires
        has_slots(capacity as int),
    ensures
        bytes is Some <==> values_fit::<T>(capacity as int),
        bytes matches Some(b) ==> forall|p: int| #[trigger]
            index::is_next_power_of_two(capacity as int, p) ==> b == p * vstd::layout::size_of::<
                T,
            >(),
{
    let adjusted_size = index::next_power_of_two(capacity);
    proof {
        index::lemma_next_power_of_two_unique(capacity as int, adjusted_size as int);
    }
    adjusted_size.checked_mul(core::mem::size_of::<T>())
}

/// Returns whether a ring of this capacity can be asked for. Where it returns `false`, a queue of
/// this capacity cannot be made: its size overflows.
pub fn can_make<T>(capacity: usize) -> (b: bool)
    ensures
        b <==> fits::<T>(capacity as int),
{
    if capacity > usize::MAX / 2 + 1 {
        return false;
    }
    let adjusted_size = index::next_power_of_two(capacity);
    proof {
        index::lemma_next_power_of_two_unique(capacity as int, adjusted_size as int);
    }
    if value_bytes::<T>(capacity).is_none() {
        return false;
    }
    match adjusted_size.checked_mul(core::mem::size_of::<Option<T>>()) {
        Some(bytes) => bytes <= isize::MAX as usize,
        None => false,
    }
}

} // verus!

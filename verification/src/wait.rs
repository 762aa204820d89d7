//! What to do after each try of a push or a pop that waits.

use vstd::prelude::*;

verus! {

/// How a push that waits goes on.
pub enum PushWait<T> {
    /// The queue has taken the value.
    Done,
    /// The queue was full: offer the value again.
    Again(T),
    /// The queue was full, and that was the last try.
    GaveUp(T),
}

/// How a pop that waits goes on.
pub enum PopWait<T> {
    /// The queue has given out this value.
    Done(T),
    /// The queue was empty: ask again.
    Again,
    /// The queue was empty, and that was the last try.
    GaveUp,
}

/// Decides how a push goes on after the queue answered `reply`, with so many tries left.
pub fn after_offer<T>(reply: Option<T>, left: u64) -> (w: PushWait<T>)
    ensures
        w == match reply {
            None => PushWait::Done,
            Some(v) => if left > 0 {
                PushWait::Again(v)
            } else {
                PushWait::GaveUp(v)
            },
        },
{
    match reply {
        None => PushWait::Done,
        Some(v) => if left > 0 {
            PushWait::Again(v)
        } else {
            PushWait::GaveUp(v)
        },
    }
}

/// Decides how a pop goes on after the queue answered `reply`, with so many tries left.
pub fn after_request<T>(reply: Option<T>, left: u64) -> (w: PopWait<T>)
    ensures
        w == match reply {
            Some(v) => PopWait::Done(v),
            None => if left > 0 {
                PopWait::Again
            } else {
                PopWait::GaveUp
            },
        },
{
    match reply {
        Some(v) => PopWait::Done(v),
        None => if left > 0 {
            PopWait::Again
        } else {
            PopWait::GaveUp
        },
    }
}

} // verus!

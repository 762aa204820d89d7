//! The account of the values that are destroyed.

use vstd::prelude::*;

verus! {

/// The values that were destroyed here, in their order. It costs nothing at run time.
///
/// A value gets into the account by being destroyed, and in no other way.
pub(crate) struct Destroyed<T> {
    values: Ghost<Seq<T>>,
}

impl<T> View for Destroyed<T> {
    type V = Seq<T>;

    /// The values, in the order in which they were destroyed.
    closed spec fn view(&self) -> Seq<T> {
        self.values@
    }
}

impl<T> Destroyed<T> {
    /// Opens an account.
    pub(crate) fn new() -> (account: Self)
        ensures
            account@ == Seq::<T>::empty(),
    {
        Destroyed { values: Ghost(Seq::empty()) }
    }

    /// Destroys a value.
    pub(crate) fn destroy(&mut self, v: T)
        ensures
            final(self)@ == old(self)@.push(v),
        opens_invariants none
        no_unwind
    {
        self.values = Ghost(self.values@.push(v));
    }
}

} // verus!

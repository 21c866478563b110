use vstd::prelude::*;

verus! {

/// A value whose state can be updated in place by an operation value.
///
/// The update is applied once to each of the two copies of a table, so it must be
/// a function of the current state and the operation alone: `mutated` names that
/// function, and both methods are bound to it.
pub trait Mutable<O>: Sized {
    /// The state that results from applying `operation` to `self`.
    spec fn mutated(&self, operation: O) -> Self;

    /// Applies `operation` to the first copy; the operation itself is left as it was.
    fn mutate_first(&mut self, operation: &mut O)
        ensures
            *final(self) == <Self as Mutable<O>>::mutated(&*old(self), *old(operation)),
            *final(operation) == *old(operation),
    ;

    /// Applies `operation` to the second copy.
    fn mutate_second(&mut self, operation: O)
        ensures
            *final(self) == <Self as Mutable<O>>::mutated(&*old(self), operation),
    {
        let mut operation = operation;
        <Self as Mutable<O>>::mutate_first(self, &mut operation);
    }
}

/// The unit operation leaves every value as it is.
impl<T> Mutable<()> for T {
    open spec fn mutated(&self, operation: ()) -> T {
        *self
    }

    fn mutate_first(&mut self, operation: &mut ()) {
    }

    fn mutate_second(&mut self, operation: ()) {
    }
}

} // verus!

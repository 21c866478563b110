use std::sync::Arc;
use vstd::prelude::*;

verus! {

/// Holds when every clone of a `T` equals the value it was cloned from.
///
/// The two copies of a table each keep their own clone of keys, metadata and
/// mutable parts; they stay equal only where cloning is exact.
pub open spec fn clones_exactly<T: Clone>() -> bool {
    forall|a: T, b: T| #[trigger] vstd::pervasive::strictly_cloned(a, b) ==> a == b
}

/// A stored value: a part that each copy owns and mutates on its own, and a
/// read-only payload that both copies share.
///
/// The payload sits behind a reference count, so it is destroyed exactly once,
/// when the last copy or pending operation that refers to it lets go.
pub struct Value<MutV, RefV> {
    /// Can be mutated while in the map, and is held twice.
    pub mut_v: MutV,
    /// Cannot be mutated while in the map, and is allocated only once.
    pub ref_v: Arc<RefV>,
}

impl<MutV, RefV> View for Value<MutV, RefV> {
    type V = (MutV, RefV);

    open spec fn view(&self) -> (MutV, RefV) {
        (self.mut_v, *self.ref_v)
    }
}

impl<MutV: Clone, RefV> Value<MutV, RefV> {
    /// Wraps a payload and a mutable part into a value.
    pub fn new(ref_v: RefV, mut_v: MutV) -> (r: Self)
        ensures
            r@ == (mut_v, ref_v),
    {
        Value { mut_v, ref_v: Arc::new(ref_v) }
    }

    /// The mutable part; an operation is needed to change it.
    pub fn mut_v(&self) -> (r: &MutV)
        ensures
            *r == self@.0,
    {
        &self.mut_v
    }

    /// The shared read-only payload.
    pub fn ref_v(&self) -> (r: &RefV)
        ensures
            *r == self@.1,
    {
        &*self.ref_v
    }

    /// A second handle on the same value: the mutable part is cloned and the
    /// payload is shared, not copied.
    pub fn alias_clone(&self) -> (r: Self)
        ensures
            r@.1 == self@.1,
            clones_exactly::<MutV>() ==> r@ == self@,
    {
        let mut_v = self.mut_v.clone();
        assert(vstd::pervasive::strictly_cloned(self.mut_v, mut_v));
        let ref_v = self.ref_v.clone();
        Value { mut_v, ref_v }
    }
}

impl<MutV: Clone, RefV> Clone for Value<MutV, RefV> {
    /// Aliases the value: see `alias_clone`.
    fn clone(&self) -> (r: Self)
        ensures
            r@.1 == self@.1,
            clones_exactly::<MutV>() ==> r@ == self@,
    {
        self.alias_clone()
    }
}

} // verus!

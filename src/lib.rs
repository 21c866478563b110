//! A concurrent, read-mostly map kept as two copies: readers look values up in
//! the published copy without locks, while a single writer logs changes and
//! publishes them in batches, replaying each batch onto the other copy.
use std::hash::Hash;
use vstd::prelude::*;

pub mod handles;
pub mod inner;
pub mod mutable;
pub mod protocol;
pub mod value;

use crate::handles::MapReadHandle;
use crate::handles::MapWriteHandle;
use crate::handles::clone_reader;
use crate::handles::new_pair;
use crate::handles::append_op;
use crate::inner::Inner;
use crate::inner::Operation;
use crate::mutable::Mutable;

verus! {

/// How to build a map: its initial metadata and, optionally, how many entries
/// each copy should have room for.
#[derive(Debug)]
pub struct Options<Meta> {
    meta: Meta,
    capacity: Option<usize>,
}

impl<Meta> View for Options<Meta> {
    type V = (Meta, Option<usize>);

    closed spec fn view(&self) -> (Meta, Option<usize>) {
        (self.meta, self.capacity)
    }
}

impl Default for Options<()> {
    fn default() -> (r: Self)
        ensures
            r@ == ((), None::<usize>),
    {
        Options { meta: (), capacity: None }
    }
}

impl<Meta> Options<Meta> {
    /// The same options with `meta` as the initial metadata.
    pub fn with_meta<M2>(self, meta: M2) -> (r: Options<M2>)
        ensures
            r@ == (meta, self@.1),
    {
        Options { meta, capacity: self.capacity }
    }

    /// The same options with room for `capacity` entries.
    pub fn with_capacity(self, capacity: usize) -> (r: Options<Meta>)
        ensures
            r@ == (self@.0, Some(capacity)),
    {
        Options { meta: self.meta, capacity: Some(capacity) }
    }

    /// The first copy of the map: empty, not ready, with the given metadata and
    /// room for the given number of entries.
    pub fn table<Key: Eq + Hash + Clone, MutV: Clone, RefV>(self) -> (r: Inner<Key, MutV, RefV, Meta>)
        where Meta: Clone,
        ensures
            r@ == (Map::<Key, (MutV, RefV)>::empty(), self@.0, false),
    {
        match self.capacity {
            Some(cap) => Inner::with_capacity(self.meta, cap),
            None => Inner::new(self.meta),
        }
    }

    /// Builds the map, and the write and read handles used to reach it. The
    /// operation that makes a copy ready is logged first, so readers see the map
    /// from the first publish on.
    ///
    /// Keys must hash and compare deterministically, also across clones:
    /// otherwise the two copies drift apart.
    pub fn construct<Key: Eq + Hash + Clone, MutV: Clone + Mutable<Op>, RefV, Op>(self) -> (r: (
        MapWriteHandle<Key, MutV, RefV, Meta, Op>,
        MapReadHandle<Key, MutV, RefV, Meta>,
    ))
        where Meta: Clone,
        ensures
            r.0.wf(),
            r.0.initial_meta() == self@.0,
            r.0.steps().len() == 0,
    {
        let ghost meta = self@.0;
        let table = self.table();
        let (mut write, handle) = new_pair(table);
        append_op(&mut write, Operation::MarkReady);
        let read = MapReadHandle::new(clone_reader(&handle));
        (MapWriteHandle::new(write, read, Ghost(meta)), MapReadHandle::new(handle))
    }
}

/// A map with no metadata and default options.
pub fn new<Key: Eq + Hash + Clone, MutV: Clone + Mutable<Op>, RefV, Op>() -> (r: (
    MapWriteHandle<Key, MutV, RefV, (), Op>,
    MapReadHandle<Key, MutV, RefV, ()>,
))
    ensures
        r.0.wf(),
        r.0.steps().len() == 0,
{
    Options::default().construct()
}

} // verus!

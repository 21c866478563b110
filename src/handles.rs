use std::collections::hash_map;
use std::hash::Hash;
use vstd::prelude::*;
use vstd::std_specs::iter::IteratorSpec;

use crate::inner::Inner;
use crate::inner::Operation;
use crate::inner::TableView;
use crate::inner::stable;
use crate::mutable::Mutable;
use crate::protocol::Protocol;
use crate::protocol::Step;
use crate::protocol::append;
use crate::protocol::appended;
use crate::protocol::constructed;
use crate::protocol::has_published;
use crate::protocol::law_published_matches_reference;
use crate::protocol::law_ready_from_first_publish;
use crate::protocol::publish;
use crate::protocol::reference;
use crate::protocol::run;
use crate::protocol::start;
use crate::protocol::visible;
use crate::value::Value;

verus! {

/// The writer's end of left_right's two copies and operation log. Verus refuses a
/// declaration of `left_right::WriteHandle`, whose parameter is bound by
/// left_right's `Absorb`, so the handle is held here, out of Verus's sight, and
/// reached only through the functions below.
#[verifier::external_body]
#[verifier::reject_recursive_types(Key)]
#[verifier::reject_recursive_types(MutV)]
#[verifier::reject_recursive_types(RefV)]
#[verifier::reject_recursive_types(Meta)]
#[verifier::reject_recursive_types(Op)]
pub(crate) struct WriterCell<Key: Eq + Hash + Clone, MutV: Clone + Mutable<Op>, RefV, Meta: Clone, Op> {
    handle: left_right::WriteHandle<Inner<Key, MutV, RefV, Meta>, Operation<Key, MutV, RefV, Meta, Op>>,
}

/// The writer's end, with the state of the protocol that its two copies and its
/// log are in. `state` is set only by the functions below that call into
/// left_right, each of which states how the call moves it.
#[verifier::reject_recursive_types(Key)]
#[verifier::reject_recursive_types(MutV)]
#[verifier::reject_recursive_types(RefV)]
#[verifier::reject_recursive_types(Meta)]
#[verifier::reject_recursive_types(Op)]
pub(crate) struct LogWriter<Key: Eq + Hash + Clone, MutV: Clone + Mutable<Op>, RefV, Meta: Clone, Op> {
    cell: WriterCell<Key, MutV, RefV, Meta, Op>,
    state: Ghost<Protocol<Key, MutV, RefV, Meta, Op>>,
}

impl<Key: Eq + Hash + Clone, MutV: Clone + Mutable<Op>, RefV, Meta: Clone, Op> LogWriter<Key, MutV, RefV, Meta, Op> {
    pub(crate) closed spec fn state(&self) -> Protocol<Key, MutV, RefV, Meta, Op> {
        self.state@
    }

    /// Keys and clones behave as the two copies need (see `stable`).
    pub(crate) open spec fn well_behaved(&self) -> bool {
        stable::<Key, MutV, Meta>()
    }

    /// Both copies hold `table`, and nothing is logged or published.
    pub(crate) open spec fn starts_from(&self, table: TableView<Key, MutV, RefV, Meta>) -> bool {
        self.state() == start::<Key, MutV, RefV, Meta, Op>(table)
    }
}

#[verifier::external_type_specification]
#[verifier::external_body]
#[verifier::reject_recursive_types(T)]
pub struct ExReadHandle<T>(left_right::ReadHandle<T>);

#[verifier::external_type_specification]
#[verifier::external_body]
#[verifier::reject_recursive_types(T)]
pub struct ExReadGuard<'rh, T: ?Sized>(left_right::ReadGuard<'rh, T>);

/// Relies on left_right::new_from_empty: the writer's copy is `table` and the
/// readers' copy is its clone, so both start as `table`; no operation is logged
/// and nothing is published.
#[verifier::external_body]
pub(crate) fn new_pair<Key: Eq + Hash + Clone, MutV: Clone + Mutable<Op>, RefV, Meta: Clone, Op>(
    table: Inner<Key, MutV, RefV, Meta>,
) -> (r: (LogWriter<Key, MutV, RefV, Meta, Op>, left_right::ReadHandle<Inner<Key, MutV, RefV, Meta>>))
    requires
        table@.0.is_empty(),
    ensures
        r.0.starts_from(table@),
{
    let (handle, reader) = left_right::new_from_empty(table);
    (LogWriter { cell: WriterCell { handle }, state: Ghost(vstd::pervasive::arbitrary()) }, reader)
}

/// Relies on left_right::WriteHandle::append (through its `extend`): before the
/// first publish the operation is absorbed into the writer's copy at once,
/// afterwards it joins the log.
#[verifier::external_body]
pub(crate) fn append_op<Key: Eq + Hash + Clone, MutV: Clone + Mutable<Op>, RefV, Meta: Clone, Op>(
    w: &mut LogWriter<Key, MutV, RefV, Meta, Op>,
    op: Operation<Key, MutV, RefV, Meta, Op>,
)
    ensures
        final(w).state() == append(old(w).state(), op),
{
    w.cell.handle.append(op);
}

/// Relies on left_right::WriteHandle::publish (through its `update_and_swap`):
/// the writer's copy catches up with the log and the copies swap.
#[verifier::external_body]
fn publish_ops<Key: Eq + Hash + Clone, MutV: Clone + Mutable<Op>, RefV, Meta: Clone, Op>(
    w: &mut LogWriter<Key, MutV, RefV, Meta, Op>,
)
    ensures
        final(w).state() == publish(old(w).state()),
{
    w.cell.handle.publish();
}

/// Relies on left_right::WriteHandle's Deref and ReadHandle::enter: while the
/// writer lives, entering gives a guard on the copy readers see, and while the
/// writer is borrowed no publish can swap it. That copy holds the protocol's
/// published table where keys and clones behave (see `stable`).
#[verifier::external_body]
fn enter_published<'a, Key: Eq + Hash + Clone, MutV: Clone + Mutable<Op>, RefV, Meta: Clone, Op>(
    w: &'a LogWriter<Key, MutV, RefV, Meta, Op>,
) -> (r: Option<MapReadRef<'a, Key, MutV, RefV, Meta>>)
    ensures
        r.is_some(),
        w.well_behaved() ==> (r matches Some(m) ==> m@ == w.state().read),
{
    w.cell.handle.enter().map(|guard| MapReadRef { guard, seen: Ghost(vstd::pervasive::arbitrary()) })
}

/// Relies on left_right::ReadHandle's Clone: another reader of the same copies.
#[verifier::external_body]
pub(crate) fn clone_reader<Key, MutV, RefV, Meta>(
    handle: &left_right::ReadHandle<Inner<Key, MutV, RefV, Meta>>,
) -> left_right::ReadHandle<Inner<Key, MutV, RefV, Meta>> {
    handle.clone()
}

/// Relies on left_right::ReadHandle::enter: a guard on the copy readers currently
/// see, or nothing once the writer is gone. Which copy that is depends on the
/// writer's progress on another thread, so nothing is stated of it.
#[verifier::external_body]
fn enter_copy<'a, Key, MutV, RefV, Meta>(
    handle: &'a left_right::ReadHandle<Inner<Key, MutV, RefV, Meta>>,
) -> Option<MapReadRef<'a, Key, MutV, RefV, Meta>> {
    handle.enter().map(|guard| MapReadRef { guard, seen: Ghost(vstd::pervasive::arbitrary()) })
}

/// Relies on left_right::ReadGuard's Deref, which returns the one copy the guard
/// was made on: `seen` stands for that copy.
#[verifier::external_body]
fn guarded<'a, 'rh, Key, MutV, RefV, Meta>(
    m: &'a MapReadRef<'rh, Key, MutV, RefV, Meta>,
) -> (r: &'a Inner<Key, MutV, RefV, Meta>)
    ensures
        r@ == m@,
{
    &*m.guard
}

/// Relies on left_right::ReadGuard::try_map: a guard on what `Inner::get` finds
/// under `key` in the guarded copy, if anything.
#[verifier::external_body]
fn guard_value<'rh, Key: Eq + Hash + Clone, MutV: Clone, RefV, Meta: Clone>(
    m: MapReadRef<'rh, Key, MutV, RefV, Meta>,
    key: &Key,
) -> (r: Option<ValueRef<'rh, MutV, RefV>>)
    ensures
        m.well_behaved() ==> r.is_some() == m@.0.contains_key(*key),
        m.well_behaved() ==> (r matches Some(v) ==> v@ == m@.0[*key]),
{
    left_right::ReadGuard::try_map(m.guard, |t| t.get(key)).map(|guard| ValueRef { guard, seen: Ghost(vstd::pervasive::arbitrary()) })
}

/// Relies on left_right::ReadGuard::map: a guard on what `Inner::meta` returns
/// for the guarded copy.
#[verifier::external_body]
fn guard_meta<'rh, Key: Eq + Hash + Clone, MutV: Clone, RefV, Meta: Clone>(
    m: MapReadRef<'rh, Key, MutV, RefV, Meta>,
) -> (r: MetaRef<'rh, Meta>)
    ensures
        r@ == m@.1,
{
    MetaRef { guard: left_right::ReadGuard::map(m.guard, |t| t.meta()), seen: Ghost(vstd::pervasive::arbitrary()) }
}

/// Relies on left_right::ReadGuard's Deref: the value the guard was made on.
#[verifier::external_body]
fn guarded_value<'a, 'rh, MutV, RefV>(v: &'a ValueRef<'rh, MutV, RefV>) -> (r: &'a Value<MutV, RefV>)
    ensures
        r@ == v@,
{
    &*v.guard
}

/// Relies on left_right::ReadGuard's Deref: the metadata the guard was made on.
#[verifier::external_body]
fn guarded_meta<'a, 'rh, Meta>(m: &'a MetaRef<'rh, Meta>) -> (r: &'a Meta)
    ensures
        *r == m@,
{
    &*m.guard
}

/// A scoped view of the copy that readers saw when it was entered. While it
/// lives, a publish waits for it to be released before it reuses that copy, so
/// the copy does not change under it.
#[verifier::reject_recursive_types(Key)]
#[verifier::reject_recursive_types(MutV)]
#[verifier::reject_recursive_types(RefV)]
#[verifier::reject_recursive_types(Meta)]
pub struct MapReadRef<'rh, Key, MutV, RefV, Meta> {
    guard: left_right::ReadGuard<'rh, Inner<Key, MutV, RefV, Meta>>,
    seen: Ghost<TableView<Key, MutV, RefV, Meta>>,
}

impl<'rh, Key: Clone, MutV: Clone, RefV, Meta: Clone> MapReadRef<'rh, Key, MutV, RefV, Meta> {
    /// Keys and clones behave as the two copies need (see `stable`).
    pub open spec fn well_behaved(&self) -> bool {
        stable::<Key, MutV, Meta>()
    }
}

impl<'rh, Key, MutV, RefV, Meta> View for MapReadRef<'rh, Key, MutV, RefV, Meta> {
    type V = TableView<Key, MutV, RefV, Meta>;

    /// The guarded copy.
    closed spec fn view(&self) -> TableView<Key, MutV, RefV, Meta> {
        self.seen@
    }
}

/// A guard on one value of a copy, which stays as it was while the guard lives.
#[verifier::reject_recursive_types(MutV)]
#[verifier::reject_recursive_types(RefV)]
pub struct ValueRef<'rh, MutV, RefV> {
    guard: left_right::ReadGuard<'rh, Value<MutV, RefV>>,
    seen: Ghost<(MutV, RefV)>,
}

impl<'rh, MutV, RefV> View for ValueRef<'rh, MutV, RefV> {
    type V = (MutV, RefV);

    /// The guarded value.
    closed spec fn view(&self) -> (MutV, RefV) {
        self.seen@
    }
}

impl<'rh, MutV, RefV> ValueRef<'rh, MutV, RefV> {
    /// The guarded value.
    pub fn value(&self) -> (r: &Value<MutV, RefV>)
        ensures
            r@ == self@,
    {
        guarded_value(self)
    }

    /// The mutable part of the guarded value.
    pub fn mut_v(&self) -> (r: &MutV)
        ensures
            *r == self@.0,
    {
        &guarded_value(self).mut_v
    }

    /// The shared payload of the guarded value.
    pub fn ref_v(&self) -> (r: &RefV)
        ensures
            *r == self@.1,
    {
        &*guarded_value(self).ref_v
    }
}

/// A guard on the metadata of a copy.
#[verifier::reject_recursive_types(Meta)]
pub struct MetaRef<'rh, Meta> {
    guard: left_right::ReadGuard<'rh, Meta>,
    seen: Ghost<Meta>,
}

impl<'rh, Meta> View for MetaRef<'rh, Meta> {
    type V = Meta;

    /// The guarded metadata.
    closed spec fn view(&self) -> Meta {
        self.seen@
    }
}

impl<'rh, Meta> std::ops::Deref for MetaRef<'rh, Meta> {
    type Target = Meta;

    fn deref(&self) -> (r: &Meta)
        ensures
            *r == self@,
    {
        guarded_meta(self)
    }
}

impl<'rh, Key: Eq + Hash + Clone, MutV: Clone, RefV, Meta: Clone> MapReadRef<
    'rh,
    Key,
    MutV,
    RefV,
    Meta,
> {
    /// The copy this view holds.
    pub fn table(&self) -> (r: &Inner<Key, MutV, RefV, Meta>)
        ensures
            r@ == self@,
    {
        guarded(self)
    }

    /// Every (key, value) entry, each key once. The view stays held while the
    /// iteration lasts.
    pub fn iter(&self) -> (r: hash_map::Iter<'_, Key, Value<MutV, RefV>>)
        ensures
            self.well_behaved() ==> r.remaining().len() == self@.0.len(),
            self.well_behaved() ==> r.remaining().no_duplicates(),
            self.well_behaved() ==> forall|i: int|
                0 <= i < r.remaining().len() ==> #[trigger] self@.0.contains_key(*r.remaining()[i].0)
                    && (*r.remaining()[i].1)@ == self@.0[*r.remaining()[i].0],
            self.well_behaved() ==> forall|k: Key|
                #[trigger] self@.0.contains_key(k) ==> exists|i: int|
                    0 <= i < r.remaining().len() && *r.remaining()[i].0 == k,
    {
        let t = self.table();
        let r = t.data.iter();
        proof {
            if self.well_behaved() {
                assert(t.data@.dom() =~= self@.0.dom());
                assert forall|k: Key| #[trigger] self@.0.contains_key(k) implies exists|i: int|
                    0 <= i < r.remaining().len() && *r.remaining()[i].0 == k by {
                    assert(t.data@.contains_key(k));
                    assert(r.remaining().contains((&k, &t.data@[k])));
                    let i = choose|i: int| 0 <= i < r.remaining().len() && r.remaining()[i] == (&k, &t.data@[k]);
                    assert(*r.remaining()[i].0 == k);
                }
            }
        }
        r
    }

    /// Every key once. The view stays held while the iteration lasts.
    pub fn keys(&self) -> (r: hash_map::Keys<'_, Key, Value<MutV, RefV>>)
        ensures
            self.well_behaved() ==> r.remaining().unref().to_set() == self@.0.dom(),
            self.well_behaved() ==> r.remaining().no_duplicates(),
            self.well_behaved() ==> r.remaining().len() == self@.0.len(),
    {
        let t = self.table();
        let r = t.data.keys();
        proof {
            if self.well_behaved() {
                assert(t.data@.dom() =~= self@.0.dom());
            }
        }
        r
    }

    /// Every value, one for each entry. The view stays held while the iteration
    /// lasts.
    pub fn values(&self) -> (r: hash_map::Values<'_, Key, Value<MutV, RefV>>)
        ensures
            self.well_behaved() ==> r.remaining().len() == self@.0.len(),
            self.well_behaved() ==> forall|i: int|
                0 <= i < r.remaining().len() ==> self@.0.values().contains((*#[trigger] r.remaining()[i])@),
            self.well_behaved() ==> forall|k: Key|
                #[trigger] self@.0.contains_key(k) ==> exists|i: int|
                    0 <= i < r.remaining().len() && (*r.remaining()[i])@ == self@.0[k],
    {
        let t = self.table();
        let r = t.data.values();
        proof {
            if self.well_behaved() {
                assert(t.data@.dom() =~= self@.0.dom());
                assert forall|i: int| 0 <= i < r.remaining().len() implies self@.0.values().contains(
                    (*#[trigger] r.remaining()[i])@,
                ) by {
                    assert(r.remaining().unref().to_set().contains(r.remaining().unref()[i]));
                    assert(t.data@.values().contains(*r.remaining()[i]));
                    let k = choose|k: Key| t.data@.contains_key(k) && t.data@[k] == *r.remaining()[i];
                    assert(self@.0.contains_key(k));
                    assert(self@.0[k] == (*r.remaining()[i])@);
                }
                assert forall|k: Key| #[trigger] self@.0.contains_key(k) implies exists|i: int|
                    0 <= i < r.remaining().len() && (*r.remaining()[i])@ == self@.0[k] by {
                    assert(t.data@.values().contains(t.data@[k]));
                    assert(r.remaining().unref().to_set().contains(t.data@[k]));
                    assert(r.remaining().unref().contains(t.data@[k]));
                    let i = choose|i: int| 0 <= i < r.remaining().unref().len() && r.remaining().unref()[i] == t.data@[k];
                    assert(*r.remaining()[i] == t.data@[k]);
                }
            }
        }
        r
    }

    /// The number of entries.
    pub fn len(&self) -> (r: usize)
        ensures
            stable::<Key, MutV, Meta>() ==> r == self@.0.len(),
    {
        self.table().len()
    }

    /// Whether there are no entries.
    pub fn is_empty(&self) -> (r: bool)
        ensures
            r == self@.0.is_empty(),
    {
        self.table().is_empty()
    }

    /// The metadata.
    pub fn meta(&self) -> (r: &Meta)
        ensures
            *r == self@.1,
    {
        self.table().meta()
    }

    /// The value stored under `key`, if any.
    pub fn get(&self, key: &Key) -> (r: Option<&Value<MutV, RefV>>)
        ensures
            stable::<Key, MutV, Meta>() ==> r.is_some() == self@.0.contains_key(*key),
            stable::<Key, MutV, Meta>() ==> (r matches Some(v) ==> v@ == self@.0[*key]),
    {
        self.table().get(key)
    }

    /// Whether an entry is stored under `key`.
    pub fn contains_key(&self, key: &Key) -> (r: bool)
        ensures
            stable::<Key, MutV, Meta>() ==> r == self@.0.contains_key(*key),
    {
        self.table().contains_key(key)
    }

    /// Keeps the view only if its copy is ready for readers.
    pub fn snapshot(self) -> (r: Option<Self>)
        ensures
            r.is_some() == self@.2,
            r matches Some(m) ==> m@ == self@,
    {
        if self.table().is_ready() {
            Some(self)
        } else {
            None
        }
    }

    /// A guard on the value stored under `key` in a ready copy; none if the copy
    /// is not ready or holds no such entry.
    pub fn into_value(self, key: &Key) -> (r: Option<ValueRef<'rh, MutV, RefV>>)
        ensures
            stable::<Key, MutV, Meta>() ==> r.is_some() == (self@.2 && self@.0.contains_key(*key)),
            stable::<Key, MutV, Meta>() ==> (r matches Some(v) ==> v@ == self@.0[*key]),
    {
        if !self.table().is_ready() {
            return None;
        }
        guard_value(self, key)
    }

    /// A guard on the metadata of the copy.
    pub fn into_meta(self) -> (r: MetaRef<'rh, Meta>)
        ensures
            r@ == self@.1,
    {
        guard_meta(self)
    }
}

/// A handle through which any number of threads read the map without locks.
///
/// Which copy a reader finds depends on the writer's progress on another thread,
/// so these functions state what holds of the copy found: see `MapReadRef`. The
/// functions of the same names on `MapWriteHandle` state what readers see in
/// terms of the writer's calls.
#[verifier::reject_recursive_types(Key)]
#[verifier::reject_recursive_types(MutV)]
#[verifier::reject_recursive_types(RefV)]
#[verifier::reject_recursive_types(Meta)]
pub struct MapReadHandle<Key, MutV, RefV, Meta> {
    handle: left_right::ReadHandle<Inner<Key, MutV, RefV, Meta>>,
}

impl<Key: Eq + Hash + Clone, MutV: Clone, RefV, Meta: Clone> MapReadHandle<Key, MutV, RefV, Meta> {
    pub(crate) fn new(handle: left_right::ReadHandle<Inner<Key, MutV, RefV, Meta>>) -> Self {
        MapReadHandle { handle }
    }

    /// A view of the published copy; none before the first publish, when no copy
    /// is ready, or once the writer is gone.
    pub fn enter(&self) -> (r: Option<MapReadRef<'_, Key, MutV, RefV, Meta>>)
        ensures
            r matches Some(m) ==> m@.2,
    {
        match enter_copy(&self.handle) {
            Some(m) => m.snapshot(),
            None => None,
        }
    }

    /// The number of published entries; zero while nothing is published.
    pub fn len(&self) -> (r: usize)
        ensures
            stable::<Key, MutV, Meta>() ==> (r == 0 || exists|t: TableView<Key, MutV, RefV, Meta>|
                t.2 && r == #[trigger] t.0.len()),
    {
        match self.enter() {
            Some(m) => {
                let r = m.len();
                proof {
                    let t = m@;
                    assert(stable::<Key, MutV, Meta>() ==> t.2 && r == t.0.len());
                }
                r
            }
            None => 0,
        }
    }

    /// Whether the published copy has no entries; true while nothing is
    /// published.
    pub fn is_empty(&self) -> (r: bool)
        ensures
            !r ==> exists|t: TableView<Key, MutV, RefV, Meta>| t.2 && !#[trigger] t.0.is_empty(),
    {
        match self.enter() {
            Some(m) => {
                let r = m.is_empty();
                proof {
                    let t = m@;
                    assert(!r ==> t.2 && !t.0.is_empty());
                }
                r
            }
            None => true,
        }
    }

    /// A guard on the published value stored under `key`, if any: whatever copy
    /// the reader finds, a value comes back only from a ready copy that holds
    /// `key`, and it is that copy's value.
    pub fn get(&self, key: &Key) -> (r: Option<ValueRef<'_, MutV, RefV>>)
        ensures
            stable::<Key, MutV, Meta>() ==> (r matches Some(v) ==> exists|t: TableView<Key, MutV, RefV, Meta>|
                t.2 && #[trigger] t.0.contains_key(*key) && v@ == t.0[*key]),
    {
        match enter_copy(&self.handle) {
            Some(m) => {
                let ghost t = m@;
                let r = m.into_value(key);
                proof {
                    if stable::<Key, MutV, Meta>() && r is Some {
                        assert(t.2 && t.0.contains_key(*key) && r->Some_0@ == t.0[*key]);
                    }
                }
                r
            }
            None => None,
        }
    }

    /// A guard on the metadata of the copy readers see: the metadata the map was
    /// built with until a publish shows a change. None once the writer is gone.
    pub fn meta(&self) -> (r: Option<MetaRef<'_, Meta>>)
        ensures
            r matches Some(m) ==> exists|t: TableView<Key, MutV, RefV, Meta>| m@ == #[trigger] t.1,
    {
        match enter_copy(&self.handle) {
            Some(m) => {
                let ghost t = m@;
                let r = m.into_meta();
                assert(r@ == t.1);
                Some(r)
            }
            None => None,
        }
    }

    /// Whether a published entry is stored under `key`.
    pub fn contains_key(&self, key: &Key) -> (r: bool)
        ensures
            stable::<Key, MutV, Meta>() ==> (r ==> exists|t: TableView<Key, MutV, RefV, Meta>|
                t.2 && #[trigger] t.0.contains_key(*key)),
    {
        match self.enter() {
            Some(m) => {
                let r = m.contains_key(key);
                proof {
                    let t = m@;
                    assert(stable::<Key, MutV, Meta>() && r ==> t.2 && t.0.contains_key(*key));
                }
                r
            }
            None => false,
        }
    }
}

impl<Key: Eq + Hash + Clone, MutV: Clone, RefV, Meta: Clone> Clone for MapReadHandle<Key, MutV, RefV, Meta> {
    /// Another reader of the same map.
    fn clone(&self) -> Self {
        MapReadHandle { handle: clone_reader(&self.handle) }
    }
}

/// The single writer of the map. Each change is logged at once and becomes
/// visible to readers at the next publish.
///
/// `steps` records the calls made on this handle since construction, so that a
/// reader of a contract can follow, through `Protocol`, what each copy holds.
#[verifier::reject_recursive_types(Key)]
#[verifier::reject_recursive_types(MutV)]
#[verifier::reject_recursive_types(RefV)]
#[verifier::reject_recursive_types(Meta)]
#[verifier::reject_recursive_types(Op)]
pub struct MapWriteHandle<Key: Eq + Hash + Clone, MutV: Clone + Mutable<Op>, RefV, Meta: Clone, Op> {
    write: LogWriter<Key, MutV, RefV, Meta, Op>,
    read: MapReadHandle<Key, MutV, RefV, Meta>,
    pending: bool,
    initial_meta: Ghost<Meta>,
    steps: Ghost<Seq<Step<Key, MutV, RefV, Meta, Op>>>,
}

/// Whether the last of the steps appends an operation: then something is
/// waiting for a publish.
pub open spec fn ends_in_append<Key, MutV, RefV, Meta, Op>(
    steps: Seq<Step<Key, MutV, RefV, Meta, Op>>,
) -> bool {
    steps.len() > 0 && steps.last() is Append
}

impl<Key: Eq + Hash + Clone, MutV: Clone + Mutable<Op>, RefV, Meta: Clone, Op> MapWriteHandle<
    Key,
    MutV,
    RefV,
    Meta,
    Op,
> {
    /// The metadata the map was constructed with.
    pub closed spec fn initial_meta(&self) -> Meta {
        self.initial_meta@
    }

    /// The appends and publishes made through this handle, in order.
    pub closed spec fn steps(&self) -> Seq<Step<Key, MutV, RefV, Meta, Op>> {
        self.steps@
    }

    /// The handle's own bookkeeping agrees with its steps, and the protocol state
    /// of its copies is the one that these steps lead to.
    pub closed spec fn wf(&self) -> bool {
        &&& self.pending == ends_in_append(self.steps@)
        &&& self.write.state() == run(constructed(self.initial_meta@), self.steps@)
    }

    /// The state of the two copies and the log that these calls lead to; the laws
    /// of `protocol` say what readers see in it.
    pub open spec fn protocol(&self) -> Protocol<Key, MutV, RefV, Meta, Op> {
        run(constructed(self.initial_meta()), self.steps())
    }

    pub(crate) fn new(
        write: LogWriter<Key, MutV, RefV, Meta, Op>,
        read: MapReadHandle<Key, MutV, RefV, Meta>,
        meta: Ghost<Meta>,
    ) -> (r: Self)
        requires
            write.state() == constructed::<Key, MutV, RefV, Meta, Op>(meta@),
        ensures
            r.wf(),
            r.initial_meta() == meta@,
            r.steps() == Seq::<Step<Key, MutV, RefV, Meta, Op>>::empty(),
    {
        MapWriteHandle { write, read, pending: false, initial_meta: meta, steps: Ghost(Seq::empty()) }
    }

    fn append_op(&mut self, op: Operation<Key, MutV, RefV, Meta, Op>)
        requires
            old(self).wf(),
        ensures
            final(self).wf(),
            final(self).initial_meta() == old(self).initial_meta(),
            final(self).steps() == old(self).steps().push(Step::Append(op)),
            final(self).visible_entries() == old(self).visible_entries(),
    {
        let ghost logged = op;
        append_op(&mut self.write, op);
        self.pending = true;
        self.steps = Ghost(self.steps@.push(Step::Append(logged)));
        proof {
            let before = old(self).steps@;
            assert(self.steps@.drop_last() =~= before);
            crate::protocol::lemma_run_consistent(self.initial_meta@, before);
            let shown = visible(before) as int;
            assert(appended(self.steps@).take(shown) =~= appended(before).take(shown));
        }
    }

    /// Makes every change made so far visible to readers, once the readers of
    /// the stale copy have left it.
    ///
    /// It waits for every view entered before the previous publish to be
    /// released, so a thread that holds such a view (or an iterator over one)
    /// and then publishes twice waits for ever.
    pub fn publish(&mut self)
        requires
            old(self).wf(),
        ensures
            final(self).wf(),
            final(self).initial_meta() == old(self).initial_meta(),
            final(self).steps() == old(self).steps().push(Step::Publish),
            has_published(final(self).steps()),
            final(self).visible_entries() == reference(appended(old(self).steps())),
            !ends_in_append(old(self).steps()) && old(self).steps().len() > 0
                ==> final(self).visible_entries() == old(self).visible_entries(),
    {
        publish_ops(&mut self.write);
        self.pending = false;
        self.steps = Ghost(self.steps@.push(Step::Publish));
        proof {
            let before = old(self).steps@;
            let after = self.steps@;
            assert(after.drop_last() =~= before);
            assert(after[after.len() - 1] is Publish);
            let all = appended(before);
            assert(all.take(all.len() as int) =~= all);
            if !ends_in_append(before) && before.len() > 0 {
                assert(before.drop_last().push(before.last()) =~= before);
            }
        }
    }

    /// Whether an operation has been appended since the last publish, or since
    /// construction if there was none.
    pub fn has_pending(&self) -> (r: bool)
        requires
            self.wf(),
        ensures
            r == ends_in_append(self.steps()),
    {
        self.pending
    }

    /// The entries readers see: those of a plain map given, in order, every
    /// operation appended before the last publish.
    pub open spec fn visible_entries(&self) -> Map<Key, (MutV, RefV)> {
        reference(appended(self.steps()).take(visible(self.steps()) as int))
    }

    proof fn lemma_published(&self)
        requires
            self.wf(),
        ensures
            self.protocol().read.0 == self.visible_entries(),
            self.protocol().read.2 == has_published(self.steps()),
            !has_published(self.steps()) ==> self.visible_entries().is_empty(),
    {
        law_published_matches_reference(self.initial_meta(), self.steps());
        law_ready_from_first_publish(self.initial_meta(), self.steps());
        crate::protocol::lemma_visible_iff_published(self.steps());
        if !has_published(self.steps()) {
            assert(appended(self.steps()).take(0) =~= Seq::empty());
        }
    }

    /// A view of the published copy: none before the first publish, and from
    /// the first publish on the copy that the last publish made visible.
    pub fn enter(&self) -> (r: Option<MapReadRef<'_, Key, MutV, RefV, Meta>>)
        requires
            self.wf(),
        ensures
            stable::<Key, MutV, Meta>() ==> r.is_some() == has_published(self.steps()),
            stable::<Key, MutV, Meta>() ==> (r matches Some(m) ==> m@ == self.protocol().read
                && m@.0 == self.visible_entries()),
    {
        proof {
            self.lemma_published();
        }
        match enter_published(&self.write) {
            Some(m) => m.snapshot(),
            None => None,
        }
    }

    /// A guard on the published value stored under `key`, if any.
    pub fn get(&self, key: &Key) -> (r: Option<ValueRef<'_, MutV, RefV>>)
        requires
            self.wf(),
        ensures
            stable::<Key, MutV, Meta>() ==> r.is_some() == self.visible_entries().contains_key(*key),
            stable::<Key, MutV, Meta>() ==> (r matches Some(v) ==> v@ == self.visible_entries()[*key]),
    {
        proof {
            self.lemma_published();
        }
        match enter_published(&self.write) {
            Some(m) => m.into_value(key),
            None => None,
        }
    }

    /// Whether a published entry is stored under `key`.
    pub fn contains_key(&self, key: &Key) -> (r: bool)
        requires
            self.wf(),
        ensures
            stable::<Key, MutV, Meta>() ==> r == self.visible_entries().contains_key(*key),
    {
        proof {
            self.lemma_published();
        }
        match enter_published(&self.write) {
            Some(m) => m.contains_key(key),
            None => false,
        }
    }

    /// The number of published entries.
    pub fn len(&self) -> (r: usize)
        requires
            self.wf(),
        ensures
            stable::<Key, MutV, Meta>() ==> r == self.visible_entries().len(),
    {
        proof {
            self.lemma_published();
        }
        match enter_published(&self.write) {
            Some(m) => m.len(),
            None => 0,
        }
    }

    /// Whether no entry is published.
    pub fn is_empty(&self) -> (r: bool)
        requires
            self.wf(),
        ensures
            stable::<Key, MutV, Meta>() ==> r == self.visible_entries().is_empty(),
    {
        proof {
            self.lemma_published();
        }
        match enter_published(&self.write) {
            Some(m) => m.is_empty(),
            None => true,
        }
    }

    /// A guard on the metadata readers see.
    pub fn meta(&self) -> (r: Option<MetaRef<'_, Meta>>)
        requires
            self.wf(),
        ensures
            stable::<Key, MutV, Meta>() ==> (r matches Some(m) && m@ == self.protocol().read.1),
    {
        match enter_published(&self.write) {
            Some(m) => Some(m.into_meta()),
            None => None,
        }
    }

    /// Stores a value, made of a shared payload and a mutable part, under `k`.
    pub fn insert(&mut self, k: Key, ref_v: RefV, mut_v: MutV)
        requires
            old(self).wf(),
        ensures
            final(self).wf(),
            final(self).visible_entries() == old(self).visible_entries(),
            final(self).initial_meta() == old(self).initial_meta(),
            final(self).steps().len() == old(self).steps().len() + 1,
            final(self).steps().drop_last() == old(self).steps(),
            final(self).steps().last() matches Step::Append(Operation::Insert(key, value))
                && key == k && value@ == (mut_v, ref_v),
    {
        let value = Value::new(ref_v, mut_v);
        self.append_op(Operation::Insert(k, value));
        assert(self.steps().drop_last() =~= old(self).steps());
    }

    /// Stores each (key, (payload, mutable part)) entry in turn, as that many
    /// calls of `insert` in order would.
    pub fn extend(&mut self, entries: Vec<(Key, (RefV, MutV))>)
        requires
            old(self).wf(),
        ensures
            final(self).wf(),
            final(self).visible_entries() == old(self).visible_entries(),
            final(self).initial_meta() == old(self).initial_meta(),
            final(self).steps().len() == old(self).steps().len() + entries.len(),
            final(self).steps().take(old(self).steps().len() as int) == old(self).steps(),
            forall|i: int|
                0 <= i < entries.len() ==> (#[trigger] final(self).steps()[old(self).steps().len() + i]
                    matches Step::Append(Operation::Insert(key, value))
                    && key == entries@[i].0 && value@ == (entries@[i].1.1, entries@[i].1.0)),
    {
        let ghost items = entries@;
        let ghost start = self.steps();
        let ghost n = start.len();
        for entry in it: entries.into_iter()
            invariant
                it.seq() == items,
                self.wf(),
                self.visible_entries() == old(self).visible_entries(),
                self.initial_meta() == old(self).initial_meta(),
                self.steps().len() == n + it.index(),
                self.steps().take(n as int) == start,
                start == old(self).steps(),
                n == start.len(),
                forall|i: int|
                    0 <= i < it.index() ==> (#[trigger] self.steps()[n + i]
                        matches Step::Append(Operation::Insert(key, value))
                        && key == items[i].0 && value@ == (items[i].1.1, items[i].1.0)),
        {
            let ghost before = self.steps();
            let ghost idx = it.index();
            assert(entry == items[idx]);
            let (k, (ref_v, mut_v)) = entry;
            self.insert(k, ref_v, mut_v);
            proof {
                let after = self.steps();
                assert(after.take(n as int) =~= before.take(n as int));
                assert forall|i: int| 0 <= i <= idx implies (#[trigger] after[n + i]
                    matches Step::Append(Operation::Insert(key, value))
                    && key == items[i].0 && value@ == (items[i].1.1, items[i].1.0)) by {
                    if i < idx {
                        assert(after[n + i] == after.drop_last()[n + i]);
                    } else {
                        assert(after[n + i] == after.last());
                    }
                }
            }
        }
    }

    /// Deletes the entry of `k`, if any.
    pub fn remove(&mut self, k: Key)
        requires
            old(self).wf(),
        ensures
            final(self).wf(),
            final(self).visible_entries() == old(self).visible_entries(),
            final(self).initial_meta() == old(self).initial_meta(),
            final(self).steps() == old(self).steps().push(Step::Append(Operation::Remove(k))),
    {
        self.append_op(Operation::Remove(k));
    }

    /// Deletes every entry.
    pub fn clear(&mut self)
        requires
            old(self).wf(),
        ensures
            final(self).wf(),
            final(self).visible_entries() == old(self).visible_entries(),
            final(self).initial_meta() == old(self).initial_meta(),
            final(self).steps() == old(self).steps().push(Step::Append(Operation::Clear)),
    {
        self.append_op(Operation::Clear);
    }

    /// Applies `op` to the mutable part of the value stored under `k`, if any.
    pub fn mutate(&mut self, k: Key, op: Op)
        requires
            old(self).wf(),
        ensures
            final(self).wf(),
            final(self).visible_entries() == old(self).visible_entries(),
            final(self).initial_meta() == old(self).initial_meta(),
            final(self).steps() == old(self).steps().push(Step::Append(Operation::Mutate(k, op))),
    {
        self.append_op(Operation::Mutate(k, op));
    }

    /// Replaces the metadata.
    pub fn set_meta(&mut self, meta: Meta)
        requires
            old(self).wf(),
        ensures
            final(self).wf(),
            final(self).visible_entries() == old(self).visible_entries(),
            final(self).initial_meta() == old(self).initial_meta(),
            final(self).steps() == old(self).steps().push(Step::Append(Operation::SetMeta(meta))),
    {
        self.append_op(Operation::SetMeta(meta));
    }
}

/// The writer reads the map as any reader does.
impl<Key: Eq + Hash + Clone, MutV: Clone + Mutable<Op>, RefV, Meta: Clone, Op> std::ops::Deref for MapWriteHandle<
    Key,
    MutV,
    RefV,
    Meta,
    Op,
> {
    type Target = MapReadHandle<Key, MutV, RefV, Meta>;

    fn deref(&self) -> &MapReadHandle<Key, MutV, RefV, Meta> {
        &self.read
    }
}

} // verus!

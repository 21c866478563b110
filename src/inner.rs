use std::collections::HashMap;
use std::collections::hash_map::RandomState;
use std::hash::Hash;
use vstd::prelude::*;
use vstd::std_specs::hash::obeys_key_model;
use vstd::std_specs::hash::builds_valid_hashers;

use crate::mutable::Mutable;
use crate::value::Value;
use crate::value::clones_exactly;

verus! {

broadcast use vstd::std_specs::hash::group_hash_axioms;

/// What a reader of one table copy sees: the entries, with each value as its
/// (mutable part, payload) pair, the metadata, and whether the copy is ready.
pub type TableView<Key, MutV, RefV, Meta> = (Map<Key, (MutV, RefV)>, Meta, bool);

/// The caller's obligations that keep the two copies of a table in step: keys hash
/// and compare deterministically, and keys, mutable parts and metadata clone exactly.
pub open spec fn stable<Key: Clone, MutV: Clone, Meta: Clone>() -> bool {
    &&& obeys_key_model::<Key>()
    &&& builds_valid_hashers::<RandomState>()
    &&& clones_exactly::<Key>()
    &&& clones_exactly::<MutV>()
    &&& clones_exactly::<Meta>()
}

/// One recorded intent to change the map.
pub enum Operation<Key, MutV, RefV, Meta, Op> {
    /// Store a value under a key, replacing any earlier one.
    Insert(Key, Value<MutV, RefV>),
    /// Delete the entry of a key, if there is one.
    Remove(Key),
    /// Delete every entry.
    Clear,
    /// Make the copy visible to readers.
    MarkReady,
    /// Replace the metadata.
    SetMeta(Meta),
    /// Apply a partial update to the mutable part of a key's value, if the key is present.
    Mutate(Key, Op),
}

/// The effect of one operation on what a copy holds.
pub open spec fn apply_op<Key, MutV: Mutable<Op>, RefV, Meta, Op>(
    t: TableView<Key, MutV, RefV, Meta>,
    op: Operation<Key, MutV, RefV, Meta, Op>,
) -> TableView<Key, MutV, RefV, Meta> {
    match op {
        Operation::Insert(k, v) => (t.0.insert(k, v@), t.1, t.2),
        Operation::Remove(k) => (t.0.remove(k), t.1, t.2),
        Operation::Clear => (Map::empty(), t.1, t.2),
        Operation::MarkReady => (t.0, t.1, true),
        Operation::SetMeta(m) => (t.0, m, t.2),
        Operation::Mutate(k, o) => if t.0.contains_key(k) {
            (t.0.insert(k, (t.0[k].0.mutated(o), t.0[k].1)), t.1, t.2)
        } else {
            t
        },
    }
}

/// The effect of a sequence of operations, applied in order.
pub open spec fn apply_ops<Key, MutV: Mutable<Op>, RefV, Meta, Op>(
    t: TableView<Key, MutV, RefV, Meta>,
    ops: Seq<Operation<Key, MutV, RefV, Meta, Op>>,
) -> TableView<Key, MutV, RefV, Meta>
    decreases ops.len(),
{
    if ops.len() == 0 {
        t
    } else {
        apply_op(apply_ops(t, ops.drop_last()), ops.last())
    }
}

/// One copy of the map.
pub struct Inner<Key, MutV, RefV, Meta> {
    pub data: HashMap<Key, Value<MutV, RefV>>,
    pub meta: Meta,
    pub ready: bool,
}

impl<Key, MutV, RefV, Meta> View for Inner<Key, MutV, RefV, Meta> {
    type V = TableView<Key, MutV, RefV, Meta>;

    open spec fn view(&self) -> TableView<Key, MutV, RefV, Meta> {
        (self.data@.map_values(|v: Value<MutV, RefV>| v@), self.meta, self.ready)
    }
}

impl<Key: Eq + Hash + Clone, MutV: Clone, RefV, Meta: Clone> Inner<Key, MutV, RefV, Meta> {
    /// Applies an operation to the copy that the writer is working on. Values are
    /// aliased into this copy, so the operation still holds its own handle.
    pub fn absorb_first<Op>(&mut self, op: &mut Operation<Key, MutV, RefV, Meta, Op>, _other: &Self)
        where MutV: Mutable<Op>,
        ensures
            stable::<Key, MutV, Meta>() ==> final(self)@ == apply_op(old(self)@, *old(op)),
            *final(op) == *old(op),
    {
        match op {
            Operation::Insert(key, value) => {
                let k = key.clone();
                assert(vstd::pervasive::strictly_cloned(*key, k));
                let v = value.alias_clone();
                self.data.insert(k, v);
                assert(stable::<Key, MutV, Meta>() ==> self@.0 =~= old(self)@.0.insert(*key, value@));
            }
            Operation::Remove(key) => {
                self.data.remove(key);
                assert(stable::<Key, MutV, Meta>() ==> self@.0 =~= old(self)@.0.remove(*key));
            }
            Operation::Clear => {
                self.data.clear();
                assert(stable::<Key, MutV, Meta>() ==> self@.0 =~= Map::empty());
            }
            Operation::MarkReady => {
                self.ready = true;
            }
            Operation::SetMeta(meta) => {
                let m = meta.clone();
                assert(vstd::pervasive::strictly_cloned(*meta, m));
                self.meta = m;
            }
            Operation::Mutate(key, operation) => {
                match self.data.remove(key) {
                    Some(value) => {
                        let mut value = value;
                        value.mut_v.mutate_first(operation);
                        let k = key.clone();
                        assert(vstd::pervasive::strictly_cloned(*key, k));
                        self.data.insert(k, value);
                        assert(stable::<Key, MutV, Meta>() ==> self@.0 =~= old(self)@.0.insert(*key, (old(self)@.0[*key].0.mutated(*operation), old(self)@.0[*key].1)));
                    }
                    None => {}
                }
            }
        }
    }

    /// Applies an operation to the copy that is being brought up to date during a
    /// publish. This copy takes the operation's own handle on any inserted value.
    pub fn absorb_second<Op>(&mut self, op: Operation<Key, MutV, RefV, Meta, Op>, _other: &Self)
        where MutV: Mutable<Op>,
        ensures
            stable::<Key, MutV, Meta>() ==> final(self)@ == apply_op(old(self)@, op),
    {
        match op {
            Operation::Insert(key, value) => {
                self.data.insert(key, value);
                assert(stable::<Key, MutV, Meta>() ==> self@.0 =~= old(self)@.0.insert(key, value@));
            }
            Operation::Remove(key) => {
                self.data.remove(&key);
                assert(stable::<Key, MutV, Meta>() ==> self@.0 =~= old(self)@.0.remove(key));
            }
            Operation::Clear => {
                self.data.clear();
                assert(stable::<Key, MutV, Meta>() ==> self@.0 =~= Map::empty());
            }
            Operation::MarkReady => {
                self.ready = true;
            }
            Operation::SetMeta(meta) => {
                self.meta = meta;
            }
            Operation::Mutate(key, operation) => {
                match self.data.remove(&key) {
                    Some(value) => {
                        let mut value = value;
                        value.mut_v.mutate_second(operation);
                        self.data.insert(key, value);
                        assert(stable::<Key, MutV, Meta>() ==> self@.0 =~= old(self)@.0.insert(key, (old(self)@.0[key].0.mutated(operation), old(self)@.0[key].1)));
                    }
                    None => {}
                }
            }
        }
    }

    /// Makes this copy hold every entry of `first`, each value aliased (its
    /// payload shared with `first`), takes its metadata and marks this copy
    /// ready. Used once, on the copy that missed the writes made before the first
    /// publish.
    pub fn sync_with(&mut self, first: &Self)
        ensures
            final(self)@.2,
            clones_exactly::<Key>() && clones_exactly::<MutV>() ==> final(self)@.0 == first@.0,
            clones_exactly::<Meta>() ==> final(self)@.1 == first@.1,
    {
        self.data = first.data.clone();
        let meta = first.meta.clone();
        assert(vstd::pervasive::strictly_cloned(first.meta, meta));
        self.meta = meta;
        self.ready = true;
    }

    /// An exact twin of an empty copy: the same metadata and ready flag, and the
    /// same hashing state, so both copies order their keys alike. Only an empty
    /// copy may be twinned.
    pub fn twin(&self) -> (r: Self)
        requires
            self@.0.is_empty(),
        ensures
            clones_exactly::<Meta>() ==> r@ == self@,
    {
        self.clone()
    }

    /// An empty, not yet ready copy with room for `capacity` entries.
    pub fn with_capacity(meta: Meta, capacity: usize) -> (r: Self)
        ensures
            r@ == (Map::<Key, (MutV, RefV)>::empty(), meta, false),
    {
        let r = Inner { data: HashMap::with_capacity(capacity), meta, ready: false };
        assert(r@.0 =~= Map::empty());
        r
    }

    /// An empty, not yet ready copy.
    pub fn new(meta: Meta) -> (r: Self)
        ensures
            r@ == (Map::<Key, (MutV, RefV)>::empty(), meta, false),
    {
        let r = Inner { data: HashMap::new(), meta, ready: false };
        assert(r@.0 =~= Map::empty());
        r
    }

    /// Whether readers may see this copy.
    pub fn is_ready(&self) -> (r: bool)
        ensures
            r == self@.2,
    {
        self.ready
    }

    /// The metadata of this copy.
    pub fn meta(&self) -> (r: &Meta)
        ensures
            *r == self@.1,
    {
        &self.meta
    }

    /// The number of entries.
    pub fn len(&self) -> (r: usize)
        ensures
            stable::<Key, MutV, Meta>() ==> r == self@.0.len(),
    {
        assert(self@.0.dom() =~= self.data@.dom());
        self.data.len()
    }

    /// Whether there are no entries.
    pub fn is_empty(&self) -> (r: bool)
        ensures
            r == self@.0.is_empty(),
    {
        assert(self@.0.dom() =~= self.data@.dom());
        self.data.is_empty()
    }

    /// The value stored under `key`, if any.
    pub fn get(&self, key: &Key) -> (r: Option<&Value<MutV, RefV>>)
        ensures
            stable::<Key, MutV, Meta>() ==> match r {
                Some(v) => self@.0.contains_key(*key) && v@ == self@.0[*key],
                None => !self@.0.contains_key(*key),
            },
    {
        self.data.get(key)
    }

    /// Whether an entry is stored under `key`.
    pub fn contains_key(&self, key: &Key) -> (r: bool)
        ensures
            stable::<Key, MutV, Meta>() ==> r == self@.0.contains_key(*key),
    {
        self.data.contains_key(key)
    }
}

/// Relies on HashMap::capacity: how many entries the map can hold without growing.
#[verifier::external_body]
fn capacity_of<Key, V>(m: &HashMap<Key, V>) -> usize {
    m.capacity()
}

/// Relies on HashMap::hasher: the state the map hashes with.
#[verifier::external_body]
fn hasher_of<Key, V>(m: &HashMap<Key, V>) -> &RandomState {
    m.hasher()
}

/// Relies on RandomState's Clone: a hashing state that hashes as the given one does.
#[verifier::external_body]
fn clone_hasher(h: &RandomState) -> RandomState {
    h.clone()
}

/// Relies on HashMap::with_capacity_and_hasher: a new map holds no entries.
#[verifier::external_body]
fn empty_with_hasher<Key, V>(capacity: usize, hasher: RandomState) -> (r: HashMap<Key, V>)
    ensures
        r@.is_empty(),
{
    HashMap::with_capacity_and_hasher(capacity, hasher)
}

} // verus!

verus! {

/// The two copies of a map absorb each logged operation once each: the first
/// application aliases values, the second takes the operation's own handles.
impl<Key: Eq + Hash + Clone, MutV: Clone + Mutable<Op>, RefV, Meta: Clone, Op> left_right::Absorb<
    Operation<Key, MutV, RefV, Meta, Op>,
> for Inner<Key, MutV, RefV, Meta> {
    fn absorb_first(&mut self, operation: &mut Operation<Key, MutV, RefV, Meta, Op>, other: &Self) {
        Inner::absorb_first(self, operation, other)
    }

    fn absorb_second(&mut self, operation: Operation<Key, MutV, RefV, Meta, Op>, other: &Self) {
        Inner::absorb_second(self, operation, other)
    }

    fn sync_with(&mut self, first: &Self) {
        Inner::sync_with(self, first)
    }
}

/// Cloning a copy makes a fresh copy with its metadata, ready flag and hashing
/// state. left_right clones only the first copy of a map, when it is empty, and
/// then the clone is an exact twin (see `twin`); entries are never cloned, since
/// the two copies must share their payloads rather than duplicate them.
impl<Key: Eq + Hash + Clone, MutV: Clone, RefV, Meta: Clone> Clone for Inner<Key, MutV, RefV, Meta> {
    fn clone(&self) -> (r: Self)
        ensures
            r@.0.is_empty(),
            r@.2 == self@.2,
            clones_exactly::<Meta>() ==> r@.1 == self@.1,
            clones_exactly::<Meta>() && self@.0.is_empty() ==> r@ == self@,
    {
        let data: HashMap<Key, Value<MutV, RefV>> = empty_with_hasher(capacity_of(&self.data), clone_hasher(hasher_of(&self.data)));
        assert(data@ =~= Map::empty());
        let meta = self.meta.clone();
        assert(vstd::pervasive::strictly_cloned(self.meta, meta));
        let r = Inner { data, meta, ready: self.ready };
        assert(r@.0 =~= Map::empty());
        r
    }
}

} // verus!

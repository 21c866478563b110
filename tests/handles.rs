use sevmap::handles::MapReadHandle;
use sevmap::handles::MapWriteHandle;
use sevmap::mutable::Mutable;
use sevmap::Options;
use std::sync::atomic::AtomicUsize;
use std::sync::atomic::Ordering;
use std::sync::Arc;

enum MutateValue {
    Increment(i32),
    Decrement(i32),
}

impl Mutable<MutateValue> for i32 {
    fn mutated(&self, operation: MutateValue) -> i32 {
        match operation {
            MutateValue::Increment(v) => *self + v,
            MutateValue::Decrement(v) => *self - v,
        }
    }

    fn mutate_first(&mut self, operation: &mut MutateValue) {
        match operation {
            MutateValue::Increment(v) => *self += *v,
            MutateValue::Decrement(v) => *self -= *v,
        }
    }
}

type Writer = MapWriteHandle<char, i32, i32, i32, MutateValue>;
type Reader = MapReadHandle<char, i32, i32, i32>;

fn pair(meta: i32) -> (Writer, Reader) {
    Options::default().with_meta(meta).construct()
}

#[test]
fn nothing_readable_before_first_publish() {
    let (mut w, r) = pair(100);
    assert!(!w.has_pending());
    w.insert('x', 42, 10);
    assert!(w.has_pending());
    assert!(r.enter().is_none());
    assert!(r.get(&'x').is_none());
    assert_eq!(*r.meta().unwrap(), 100);
    assert!(!r.contains_key(&'x'));
    assert_eq!(r.len(), 0);
    assert!(r.is_empty());
}

#[test]
fn first_publish_with_no_operations_gives_empty_snapshot() {
    let (mut w, r) = pair(100);
    w.publish();
    let snapshot = r.enter().expect("a snapshot after the first publish");
    assert!(snapshot.is_empty());
    assert_eq!(snapshot.len(), 0);
    assert_eq!(*snapshot.meta(), 100);
    assert_eq!(*r.meta().unwrap(), 100);
    assert!(r.is_empty());
}

#[test]
fn remove_shows_only_after_publish() {
    let (mut w, r) = pair(0);
    w.insert('x', 42, 0);
    w.publish();
    assert_eq!(*r.get(&'x').unwrap().ref_v(), 42);
    w.remove('x');
    assert_eq!(*r.get(&'x').unwrap().ref_v(), 42);
    w.publish();
    assert!(r.get(&'x').is_none());
}

#[test]
fn mutate_changes_mutable_part_only() {
    let (mut w, r) = pair(0);
    w.insert('k', 5, 10);
    w.publish();
    w.mutate('k', MutateValue::Decrement(2));
    w.publish();
    let v = r.get(&'k').unwrap();
    assert_eq!(*v.mut_v(), 8);
    assert_eq!(*v.ref_v(), 5);
}

#[test]
fn empty_publish_leaves_view_unchanged() {
    let (mut w, r) = pair(7);
    w.insert('a', 1, 2);
    w.insert('b', 3, 4);
    w.publish();
    w.remove('a');
    w.publish();
    let before: Vec<(char, i32, i32)> = {
        let s = r.enter().unwrap();
        let mut v: Vec<(char, i32, i32)> = s.iter().map(|(k, x)| (*k, *x.ref_v(), *x.mut_v())).collect();
        v.sort();
        v
    };
    w.publish();
    let after: Vec<(char, i32, i32)> = {
        let s = r.enter().unwrap();
        let mut v: Vec<(char, i32, i32)> = s.iter().map(|(k, x)| (*k, *x.ref_v(), *x.mut_v())).collect();
        v.sort();
        v
    };
    assert_eq!(before, vec![('b', 3, 4)]);
    assert_eq!(before, after);
    assert!(!w.has_pending());
}

#[test]
fn published_state_follows_operations_in_order() {
    let (mut w, r) = pair(100);
    w.insert('x', 42, 10);
    w.set_meta(1502);
    assert!(r.get(&'x').is_none());
    w.publish();
    w.insert('y', 23, 50);
    w.mutate('x', MutateValue::Decrement(2));
    assert!(w.has_pending());
    assert_eq!(*r.get(&'x').unwrap().ref_v(), 42);
    assert_eq!(*r.get(&'x').unwrap().mut_v(), 10);
    assert_eq!(*r.meta().unwrap(), 1502);
    w.publish();
    w.mutate('x', MutateValue::Decrement(2));
    w.mutate('x', MutateValue::Increment(50));
    assert_eq!(*r.get(&'x').unwrap().mut_v(), 8);
    w.publish();
    assert_eq!(*r.get(&'x').unwrap().mut_v(), 56);
    assert_eq!(r.enter().unwrap().iter().count(), 2);
    assert_eq!(r.enter().unwrap().keys().count(), 2);
    assert_eq!(r.enter().unwrap().values().count(), 2);
    w.clear();
    assert!(!r.is_empty());
    assert_eq!(r.len(), 2);
    w.publish();
    assert!(r.is_empty());
    assert!(r.get(&'x').is_none());
    assert_eq!(*r.meta().unwrap(), 1502);
}

#[test]
fn mutate_of_missing_key_does_nothing() {
    let (mut w, r) = pair(0);
    w.insert('a', 1, 1);
    w.mutate('z', MutateValue::Increment(5));
    w.publish();
    assert_eq!(r.len(), 1);
    assert!(!r.contains_key(&'z'));
    assert!(r.contains_key(&'a'));
}

#[test]
fn insert_replaces_earlier_value() {
    let (mut w, r) = pair(0);
    w.insert('a', 1, 1);
    w.insert('a', 2, 3);
    w.publish();
    w.publish();
    let v = r.get(&'a').unwrap();
    assert_eq!((*v.ref_v(), *v.mut_v()), (2, 3));
    assert_eq!(r.len(), 1);
}

#[test]
fn reader_clone_and_writer_reader_see_the_same() {
    let (mut w, r) = pair(0);
    let r2 = r.clone();
    w.insert('a', 9, 9);
    w.publish();
    assert_eq!(*r2.get(&'a').unwrap().ref_v(), 9);
    assert_eq!(*w.get(&'a').unwrap().ref_v(), 9);
}

#[test]
fn default_new_and_capacity_options() {
    let (mut w, r): (MapWriteHandle<u64, u64, u64, (), ()>, MapReadHandle<u64, u64, u64, ()>) =
        sevmap::new();
    w.insert(1, 2, 3);
    w.publish();
    assert_eq!(r.len(), 1);
    let (mut w2, r2): (MapWriteHandle<u64, u64, u64, u8, ()>, MapReadHandle<u64, u64, u64, u8>) =
        Options::default().with_capacity(16).with_meta(3u8).construct();
    w2.mutate(1, ());
    w2.publish();
    assert_eq!(*r2.meta().unwrap(), 3);
    assert!(r2.is_empty());
}

struct Counted {
    drops: Arc<AtomicUsize>,
}

impl Drop for Counted {
    fn drop(&mut self) {
        self.drops.fetch_add(1, Ordering::SeqCst);
    }
}

#[test]
fn each_payload_dropped_exactly_once() {
    let drops = Arc::new(AtomicUsize::new(0));
    {
        let (mut w, r): (MapWriteHandle<u32, u32, Counted, (), ()>, MapReadHandle<u32, u32, Counted, ()>) =
            sevmap::new();
        for i in 0..20u32 {
            w.insert(i, Counted { drops: drops.clone() }, i);
        }
        w.publish();
        for i in 0..10u32 {
            w.remove(i);
        }
        w.insert(15, Counted { drops: drops.clone() }, 0);
        w.publish();
        w.publish();
        assert_eq!(drops.load(Ordering::SeqCst), 11);
        w.clear();
        w.publish();
        w.publish();
        assert_eq!(drops.load(Ordering::SeqCst), 21);
        w.insert(99, Counted { drops: drops.clone() }, 0);
        w.publish();
        drop(r);
    }
    assert_eq!(drops.load(Ordering::SeqCst), 22);
}

#[test]
fn snapshot_outlives_later_changes() {
    let (mut w, r) = pair(0);
    w.insert('a', 1, 1);
    w.publish();
    let r2 = r.clone();
    let snapshot = r2.enter().unwrap();
    assert_eq!(*snapshot.get(&'a').unwrap().ref_v(), 1);
    w.insert('b', 2, 2);
    assert_eq!(snapshot.len(), 1);
    assert!(!snapshot.contains_key(&'b'));
    drop(snapshot);
    w.publish();
    assert_eq!(r.len(), 2);
}

#[test]
fn writer_reads_what_its_publishes_show() {
    let (mut w, _r) = pair(100);
    assert!(w.enter().is_none());
    assert!(w.is_empty());
    assert_eq!(*w.meta().unwrap(), 100);
    w.insert('x', 42, 10);
    assert!(w.get(&'x').is_none());
    assert_eq!(w.len(), 0);
    w.publish();
    assert!(w.enter().is_some());
    assert_eq!(*w.get(&'x').unwrap().ref_v(), 42);
    assert!(w.contains_key(&'x'));
    assert_eq!(w.len(), 1);
    w.mutate('x', MutateValue::Increment(1));
    w.set_meta(7);
    assert_eq!(*w.get(&'x').unwrap().mut_v(), 10);
    assert_eq!(*w.meta().unwrap(), 100);
    w.publish();
    assert_eq!(*w.get(&'x').unwrap().mut_v(), 11);
    assert_eq!(*w.meta().unwrap(), 7);
    assert_eq!(*w.enter().unwrap().meta(), 7);
}

#[test]
fn str_keys_insert_remove_publish() {
    let (mut w, r): (MapWriteHandle<&str, (), i32, (), ()>, MapReadHandle<&str, (), i32, ()>) =
        sevmap::new();
    w.insert("x", 42, ());
    w.publish();
    assert_eq!(r.get(&"x").unwrap().ref_v(), &42);
    w.remove("x");
    assert_eq!(r.get(&"x").unwrap().ref_v(), &42);
    w.publish();
    assert!(r.get(&"x").is_none());
    assert!(w.get(&"x").is_none());
}

#[test]
fn snapshot_keys_and_values_match_entries() {
    let (mut w, r) = pair(0);
    w.insert('a', 1, 10);
    w.insert('b', 2, 20);
    w.insert('a', 3, 30);
    w.publish();
    let s = r.enter().unwrap();
    let mut keys: Vec<char> = s.keys().copied().collect();
    keys.sort();
    assert_eq!(keys, vec!['a', 'b']);
    assert_eq!(s.values().count(), s.len());
    let v = s.get(&'a').unwrap();
    assert_eq!((*v.ref_v(), *v.mut_v()), (3, 30));
    assert_eq!(s.table().len(), 2);
}

#[test]
fn extend_inserts_in_order() {
    let (mut w, r) = pair(0);
    w.extend(vec![('a', (1, 10)), ('b', (2, 20)), ('a', (3, 30))]);
    assert!(w.has_pending());
    assert!(r.get(&'a').is_none());
    w.publish();
    assert_eq!(r.len(), 2);
    let a = r.get(&'a').unwrap();
    assert_eq!((*a.ref_v(), *a.mut_v()), (3, 30));
    let b = r.get(&'b').unwrap();
    assert_eq!((*b.ref_v(), *b.mut_v()), (2, 20));
}

use sevmap::inner::Inner;
use sevmap::inner::Operation;
use sevmap::mutable::Mutable;
use sevmap::value::Value;
use sevmap::Options;

struct Add(u64);

impl Mutable<Add> for u64 {
    fn mutated(&self, operation: Add) -> u64 {
        *self + operation.0
    }

    fn mutate_first(&mut self, operation: &mut Add) {
        *self += operation.0;
    }
}

type Table = Inner<u64, u64, String, u8>;
type Op = Operation<u64, u64, String, u8, Add>;

fn table() -> Table {
    Inner::new(1)
}

fn entries(t: &Table) -> Vec<(u64, u64, String)> {
    let mut v: Vec<(u64, u64, String)> = t.data.iter().map(|(k, x)| (*k, *x.mut_v(), x.ref_v().clone())).collect();
    v.sort();
    v
}

fn both(ops: Vec<Op>) -> (Table, Table) {
    let mut front = table();
    let mut back = table();
    let other = table();
    for mut op in ops {
        front.absorb_first(&mut op, &other);
        back.absorb_second(op, &other);
    }
    (front, back)
}

#[test]
fn both_applications_agree() {
    let ops: Vec<Op> = vec![
        Operation::Insert(1, Value::new("one".to_string(), 10)),
        Operation::Insert(2, Value::new("two".to_string(), 20)),
        Operation::Mutate(1, Add(5)),
        Operation::Remove(2),
        Operation::Insert(3, Value::new("three".to_string(), 30)),
        Operation::SetMeta(9),
        Operation::MarkReady,
    ];
    let (front, back) = both(ops);
    assert_eq!(entries(&front), vec![(1, 15, "one".to_string()), (3, 30, "three".to_string())]);
    assert_eq!(entries(&front), entries(&back));
    assert_eq!((*front.meta(), front.is_ready()), (9, true));
    assert_eq!((*back.meta(), back.is_ready()), (9, true));
}

#[test]
fn clear_empties_both_copies() {
    let ops: Vec<Op> = vec![
        Operation::Insert(1, Value::new("one".to_string(), 10)),
        Operation::Clear,
        Operation::Mutate(1, Add(5)),
    ];
    let (front, back) = both(ops);
    assert!(front.is_empty() && back.is_empty());
    assert_eq!(front.len(), 0);
    assert!(!front.is_ready());
}

#[test]
fn first_application_shares_the_payload() {
    let mut front = table();
    let other = table();
    let mut op: Op = Operation::Insert(4, Value::new("four".to_string(), 40));
    front.absorb_first(&mut op, &other);
    match &op {
        Operation::Insert(k, v) => {
            assert_eq!(*k, 4);
            let stored = front.get(&4).unwrap();
            assert!(std::sync::Arc::ptr_eq(&stored.ref_v, &v.ref_v));
            assert_eq!(*stored.mut_v(), 40);
        }
        _ => panic!("the operation changed"),
    }
}

#[test]
fn sync_with_copies_entries_meta_and_readiness() {
    let (front, _) = both(vec![
        Operation::Insert(1, Value::new("one".to_string(), 10)),
        Operation::SetMeta(4),
    ]);
    let mut back = table();
    back.sync_with(&front);
    assert_eq!(entries(&back), entries(&front));
    assert_eq!(*back.meta(), 4);
    assert!(back.is_ready());
    assert!(back.contains_key(&1));
    assert!(!back.contains_key(&2));
}

#[test]
fn twin_copies_meta_and_readiness() {
    let empty: Table = Inner::with_capacity(3, 8);
    let t = empty.twin();
    assert_eq!(*t.meta(), 3);
    assert!(t.is_empty());
    assert!(!t.is_ready());
    let ready: Table = {
        let mut x = table();
        let mut op: Op = Operation::MarkReady;
        x.absorb_first(&mut op, &table());
        x
    };
    let t2 = ready.clone();
    assert!(t2.is_empty());
    assert!(t2.is_ready());
    assert_eq!(*t2.meta(), 1);
}

#[test]
fn alias_clone_shares_payload_and_clones_mutable_part() {
    let v: Value<u64, String> = Value::new("p".to_string(), 7);
    let w = v.alias_clone();
    assert!(std::sync::Arc::ptr_eq(&v.ref_v, &w.ref_v));
    assert_eq!(*w.mut_v(), 7);
    assert_eq!(w.ref_v(), "p");
}

#[test]
fn options_build_the_first_copy() {
    let t: Inner<u64, u64, String, i32> = Options::default().with_meta(5).with_capacity(10).table();
    assert_eq!(*t.meta(), 5);
    assert!(t.is_empty());
    assert!(!t.is_ready());
    let u: Inner<u64, u64, String, ()> = Options::default().table();
    assert!(u.get(&1).is_none());
}

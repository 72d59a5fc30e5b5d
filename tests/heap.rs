use cell_gc::heap::{GcHeapSession, Heap};
use cell_gc::value::{Addr, Pair, PairRef, Value, ValueStorage};

fn session() -> GcHeapSession {
    Heap::new().open_session()
}

fn as_i32(v: &Value) -> i32 {
    match v {
        Value::Int(n) => *n,
        other => panic!("not an integer: {:?}", other),
    }
}

#[test]
fn alloc_pair_then_read_fields() {
    let mut hs = session();
    let p = hs.alloc_pair(Pair { car: Value::Int(1), cdr: Value::Nil });
    assert_eq!(hs.car(p), Value::Int(1));
    assert_eq!(hs.cdr(p), Value::Nil);
}

#[test]
fn value_round_trip_through_storage() {
    let mut hs = session();
    let p = hs.alloc_pair(Pair { car: Value::Nil, cdr: Value::Nil });
    let t = hs.token();
    let values = vec![
        Value::Nil,
        Value::Bool(true),
        Value::Int(-7),
        Value::Str("hello".to_string()),
        Value::Cons(p),
    ];
    for v in values {
        let s = v.to_storage();
        assert_eq!(s.from_storage(t), v);
    }
}

#[test]
fn storage_drops_token_and_keeps_slot() {
    let r = PairRef { token: 9, index: 4 };
    let s = Value::Cons(r).to_storage();
    assert!(matches!(s, ValueStorage::Pair(4)));
    assert_eq!(s.from_storage(3), Value::Cons(PairRef { token: 3, index: 4 }));
    assert_eq!(s.addr(), Some(Addr::Pair(4)));
}

#[test]
fn pair_round_trip_through_storage() {
    let mut hs = session();
    let inner = hs.alloc_pair(Pair { car: Value::Int(2), cdr: Value::Nil });
    let p = Pair { car: Value::Str("x".to_string()), cdr: Value::Cons(inner) };
    let back = p.to_storage().from_storage(hs.token());
    assert_eq!(back.car, p.car);
    assert_eq!(back.cdr, p.cdr);
}

#[test]
fn equal_contents_give_distinct_handles() {
    let mut hs = session();
    let a = hs.alloc_pair(Pair { car: Value::Int(1), cdr: Value::Nil });
    let b = hs.alloc_pair(Pair { car: Value::Int(1), cdr: Value::Nil });
    assert_ne!(a, b);
    assert_ne!(Value::Cons(a), Value::Cons(b));
}

#[test]
fn reading_a_field_twice_gives_equal_handles() {
    let mut hs = session();
    let child = hs.alloc_pair(Pair { car: Value::Int(5), cdr: Value::Nil });
    let parent = hs.alloc_pair(Pair { car: Value::Cons(child), cdr: Value::Nil });
    let first = hs.car(parent);
    let second = hs.car(parent);
    assert_eq!(first, second);
    assert_eq!(first, Value::Cons(child));
}

#[test]
fn setters_replace_one_field() {
    let mut hs = session();
    let p = hs.alloc_pair(Pair { car: Value::Int(1), cdr: Value::Int(2) });
    hs.set_car(p, Value::Bool(false));
    assert_eq!(hs.car(p), Value::Bool(false));
    assert_eq!(hs.cdr(p), Value::Int(2));
    hs.set_cdr(p, Value::Nil);
    assert_eq!(hs.car(p), Value::Bool(false));
    assert_eq!(hs.cdr(p), Value::Nil);
}

#[test]
fn vector_elements_and_update() {
    let mut hs = session();
    let v = hs.alloc_vector(vec![Value::Int(1), Value::Int(2), Value::Int(3)]);
    assert_eq!(hs.vector_len(v), 3);
    assert_eq!(hs.vector_get(v, 2), Value::Int(3));
    hs.vector_set(v, 1, Value::Str("two".to_string()));
    assert_eq!(hs.vector_get(v, 0), Value::Int(1));
    assert_eq!(hs.vector_get(v, 1), Value::Str("two".to_string()));
    assert_eq!(hs.vector_get(v, 2), Value::Int(3));
}

#[test]
fn long_list_collected_from_head_then_from_nothing() {
    let mut hs = session();
    let mut head = Value::Nil;
    for i in 0..10_000 {
        let p = hs.alloc_pair(Pair { car: Value::Int(i), cdr: head });
        head = Value::Cons(p);
    }
    let garbage = hs.alloc_pair(Pair { car: Value::Int(-1), cdr: Value::Nil });
    assert_eq!(hs.pair_count(), 10_001);
    hs.collect(&vec![head.clone()]);
    assert_eq!(hs.pair_count(), 10_000);
    let mut cur = head.clone();
    let mut n = 0;
    while let Value::Cons(p) = cur {
        assert_eq!(as_i32(&hs.car(p)), 9_999 - n);
        n += 1;
        cur = hs.cdr(p);
    }
    assert_eq!(n, 10_000);
    let _ = garbage;
    hs.collect(&vec![]);
    assert_eq!(hs.pair_count(), 0);
}

#[test]
fn cycle_is_collected_and_other_pool_kept() {
    let mut hs = session();
    let a = hs.alloc_pair(Pair { car: Value::Int(1), cdr: Value::Nil });
    let b = hs.alloc_pair(Pair { car: Value::Int(2), cdr: Value::Cons(a) });
    hs.set_cdr(a, Value::Cons(b));
    let v = hs.alloc_vector(vec![Value::Int(7)]);
    hs.collect(&vec![Value::Cons(a), Value::Vector(v)]);
    assert_eq!(hs.pair_count(), 2);
    assert_eq!(hs.vector_count(), 1);
    assert_eq!(hs.cdr(b), Value::Cons(a));
    hs.collect(&vec![Value::Vector(v)]);
    assert_eq!(hs.pair_count(), 0);
    assert_eq!(hs.vector_count(), 1);
    assert_eq!(hs.vector_get(v, 0), Value::Int(7));
}

#[test]
fn collect_keeps_what_a_vector_holds() {
    let mut hs = session();
    let p = hs.alloc_pair(Pair { car: Value::Int(3), cdr: Value::Nil });
    let q = hs.alloc_pair(Pair { car: Value::Int(4), cdr: Value::Nil });
    let v = hs.alloc_vector(vec![Value::Cons(p), Value::Nil]);
    hs.collect(&vec![Value::Vector(v)]);
    assert_eq!(hs.pair_count(), 1);
    assert_eq!(hs.car(p), Value::Int(3));
    let _ = q;
}

#[test]
fn more_roots_keep_more() {
    let mut hs = session();
    let a = hs.alloc_pair(Pair { car: Value::Int(1), cdr: Value::Nil });
    let b = hs.alloc_pair(Pair { car: Value::Int(2), cdr: Value::Cons(a) });
    let c = hs.alloc_pair(Pair { car: Value::Int(3), cdr: Value::Nil });
    hs.collect(&vec![Value::Cons(b), Value::Cons(c)]);
    assert_eq!(hs.pair_count(), 3);
    hs.collect(&vec![Value::Cons(b)]);
    assert_eq!(hs.pair_count(), 2);
    hs.collect(&vec![Value::Cons(a)]);
    assert_eq!(hs.pair_count(), 1);
}

#[test]
fn freed_slot_is_reused() {
    let mut hs = session();
    let a = hs.alloc_pair(Pair { car: Value::Int(1), cdr: Value::Nil });
    let b = hs.alloc_pair(Pair { car: Value::Int(2), cdr: Value::Nil });
    hs.collect(&vec![Value::Cons(b)]);
    let c = hs.alloc_pair(Pair { car: Value::Int(3), cdr: Value::Nil });
    assert_eq!(c.index, a.index);
    assert_ne!(c, b);
    assert_eq!(hs.pair_count(), 2);
}

#[test]
fn trace_twice_marks_the_same() {
    let mut hs = session();
    let a = hs.alloc_pair(Pair { car: Value::Int(1), cdr: Value::Nil });
    let b = hs.alloc_pair(Pair { car: Value::Int(2), cdr: Value::Cons(a) });
    let c = hs.alloc_pair(Pair { car: Value::Int(3), cdr: Value::Nil });
    hs.set_cdr(a, Value::Cons(b));
    let addrs = [Addr::Pair(a.index), Addr::Pair(b.index), Addr::Pair(c.index)];
    hs.trace(Addr::Pair(a.index));
    let once: Vec<bool> = addrs.iter().map(|x| hs.is_marked(*x)).collect();
    assert_eq!(once, vec![true, true, false]);
    hs.trace(Addr::Pair(a.index));
    let twice: Vec<bool> = addrs.iter().map(|x| hs.is_marked(*x)).collect();
    assert_eq!(once, twice);
}

#[test]
fn new_session_has_new_token() {
    let mut hs = session();
    let p = hs.alloc_pair(Pair { car: Value::Int(1), cdr: Value::Nil });
    let t = hs.token();
    assert_eq!(p.token, t);
    let mut hs2 = hs.close().open_session();
    assert_eq!(hs2.token(), t.wrapping_add(1));
    let q = hs2.alloc_pair(Pair { car: Value::Int(2), cdr: Value::Nil });
    assert_eq!(q.token, t.wrapping_add(1));
    assert_eq!(hs2.pair_count(), 2);
}

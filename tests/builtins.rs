use cell_gc::builtins::{
    add, boolean_question, car, cdr, cons, eq_question, eqv_question, lisp_assert, mul,
    null_question, pair_question, sub, vector, vector_length, vector_question, vector_ref,
    LispError, Procedure,
};
use cell_gc::heap::{GcHeapSession, Heap};
use cell_gc::value::{Pair, Value};

fn session() -> GcHeapSession {
    Heap::new().open_session()
}

#[test]
fn cons_car_cdr_and_pair_question() {
    let mut hs = session();
    let p = cons(&mut hs, vec![Value::Int(1), Value::Int(2)]).unwrap();
    assert_eq!(car(&mut hs, vec![p.clone()]).unwrap(), Value::Int(1));
    assert_eq!(cdr(&mut hs, vec![p.clone()]).unwrap(), Value::Int(2));
    assert_eq!(pair_question(&mut hs, vec![p]).unwrap(), Value::Bool(true));
    assert_eq!(pair_question(&mut hs, vec![Value::Int(2)]).unwrap(), Value::Bool(false));
}

#[test]
fn cons_wants_two_arguments() {
    let mut hs = session();
    assert!(matches!(
        cons(&mut hs, vec![Value::Int(1)]),
        Err(LispError::ArgCount { procedure: Procedure::Cons, found: 1 })
    ));
    assert_eq!(hs.pair_count(), 0);
}

#[test]
fn car_and_cdr_errors() {
    let mut hs = session();
    assert!(matches!(
        car(&mut hs, vec![]),
        Err(LispError::ArgCount { procedure: Procedure::Car, found: 0 })
    ));
    assert!(matches!(
        cdr(&mut hs, vec![Value::Nil, Value::Nil]),
        Err(LispError::ArgCount { procedure: Procedure::Cdr, found: 2 })
    ));
    assert!(matches!(car(&mut hs, vec![Value::Int(3)]), Err(LispError::NotPair(Procedure::Car))));
    assert!(matches!(cdr(&mut hs, vec![Value::Nil]), Err(LispError::NotPair(Procedure::Cdr))));
}

#[test]
fn vector_length_and_out_of_bounds() {
    let mut hs = session();
    let v = vector(&mut hs, vec![Value::Int(1), Value::Int(2), Value::Int(3)]).unwrap();
    assert_eq!(vector_length(&mut hs, vec![v.clone()]).unwrap(), Value::Int(3));
    assert!(matches!(
        vector_ref(&mut hs, vec![v.clone(), Value::Int(5)]),
        Err(LispError::IndexOutOfBounds { index: 5, length: 3 })
    ));
    assert_eq!(vector_ref(&mut hs, vec![v.clone(), Value::Int(1)]).unwrap(), Value::Int(2));
    assert_eq!(vector_question(&mut hs, vec![v]).unwrap(), Value::Bool(true));
    assert_eq!(vector_question(&mut hs, vec![Value::Nil]).unwrap(), Value::Bool(false));
}

#[test]
fn vector_errors() {
    let mut hs = session();
    let v = vector(&mut hs, vec![]).unwrap();
    assert_eq!(vector_length(&mut hs, vec![v.clone()]).unwrap(), Value::Int(0));
    assert!(matches!(
        vector_ref(&mut hs, vec![v.clone(), Value::Int(0)]),
        Err(LispError::IndexOutOfBounds { index: 0, length: 0 })
    ));
    assert!(matches!(
        vector_ref(&mut hs, vec![v.clone(), Value::Int(-1)]),
        Err(LispError::NotIndex(Procedure::VectorRef))
    ));
    assert!(matches!(
        vector_ref(&mut hs, vec![Value::Int(4), Value::Int(0)]),
        Err(LispError::NotVector(Procedure::VectorRef))
    ));
    assert!(matches!(
        vector_ref(&mut hs, vec![v.clone()]),
        Err(LispError::ArgCount { procedure: Procedure::VectorRef, found: 1 })
    ));
    assert!(matches!(
        vector_length(&mut hs, vec![Value::Bool(true)]),
        Err(LispError::NotVector(Procedure::VectorLength))
    ));
    assert!(matches!(
        vector_length(&mut hs, vec![]),
        Err(LispError::ArgCount { procedure: Procedure::VectorLength, found: 0 })
    ));
}

#[test]
fn add_sums_and_rejects_non_numbers() {
    let mut hs = session();
    assert_eq!(
        add(&mut hs, vec![Value::Int(1), Value::Int(2), Value::Int(3)]).unwrap(),
        Value::Int(6)
    );
    assert!(matches!(
        add(&mut hs, vec![Value::Int(1), Value::Bool(true)]),
        Err(LispError::NotNumber(Procedure::Add))
    ));
    assert_eq!(add(&mut hs, vec![]).unwrap(), Value::Int(0));
    assert!(matches!(
        add(&mut hs, vec![Value::Int(i32::MAX), Value::Int(1)]),
        Err(LispError::Overflow(Procedure::Add))
    ));
}

#[test]
fn mul_multiplies() {
    let mut hs = session();
    assert_eq!(
        mul(&mut hs, vec![Value::Int(2), Value::Int(3), Value::Int(-4)]).unwrap(),
        Value::Int(-24)
    );
    assert_eq!(mul(&mut hs, vec![]).unwrap(), Value::Int(1));
    assert!(matches!(
        mul(&mut hs, vec![Value::Nil]),
        Err(LispError::NotNumber(Procedure::Mul))
    ));
    assert!(matches!(
        mul(&mut hs, vec![Value::Int(65536), Value::Int(65536)]),
        Err(LispError::Overflow(Procedure::Mul))
    ));
}

#[test]
fn sub_negates_and_subtracts() {
    let mut hs = session();
    assert_eq!(sub(&mut hs, vec![Value::Int(5)]).unwrap(), Value::Int(-5));
    assert_eq!(
        sub(&mut hs, vec![Value::Int(10), Value::Int(3), Value::Int(2)]).unwrap(),
        Value::Int(5)
    );
    assert!(matches!(
        sub(&mut hs, vec![]),
        Err(LispError::ArgCount { procedure: Procedure::Sub, found: 0 })
    ));
    assert!(matches!(sub(&mut hs, vec![Value::Nil]), Err(LispError::NotNumber(Procedure::Sub))));
    assert!(matches!(
        sub(&mut hs, vec![Value::Int(1), Value::Str("a".to_string())]),
        Err(LispError::NotNumber(Procedure::Sub))
    ));
    assert!(matches!(
        sub(&mut hs, vec![Value::Int(i32::MIN)]),
        Err(LispError::Overflow(Procedure::Sub))
    ));
}

#[test]
fn predicates() {
    let mut hs = session();
    assert_eq!(boolean_question(&mut hs, vec![Value::Bool(false)]).unwrap(), Value::Bool(true));
    assert_eq!(boolean_question(&mut hs, vec![Value::Int(0)]).unwrap(), Value::Bool(false));
    assert_eq!(null_question(&mut hs, vec![Value::Nil]).unwrap(), Value::Bool(true));
    assert_eq!(null_question(&mut hs, vec![Value::Int(0)]).unwrap(), Value::Bool(false));
    assert!(matches!(
        null_question(&mut hs, vec![]),
        Err(LispError::ArgCount { procedure: Procedure::NullQuestion, found: 0 })
    ));
    assert!(matches!(
        boolean_question(&mut hs, vec![Value::Nil, Value::Nil]),
        Err(LispError::ArgCount { procedure: Procedure::BooleanQuestion, found: 2 })
    ));
}

#[test]
fn eqv_compares_pairs_by_handle_and_strings_by_value() {
    let mut hs = session();
    let a = cons(&mut hs, vec![Value::Int(1), Value::Nil]).unwrap();
    let b = cons(&mut hs, vec![Value::Int(1), Value::Nil]).unwrap();
    assert_eq!(eqv_question(&mut hs, vec![a.clone(), b.clone()]).unwrap(), Value::Bool(false));
    assert_eq!(eqv_question(&mut hs, vec![a.clone(), a.clone()]).unwrap(), Value::Bool(true));
    assert_eq!(
        eqv_question(&mut hs, vec![Value::Str("s".to_string()), Value::Str("s".to_string())]).unwrap(),
        Value::Bool(true)
    );
    assert_eq!(
        eqv_question(&mut hs, vec![Value::Int(1), Value::Bool(true)]).unwrap(),
        Value::Bool(false)
    );
    assert!(matches!(
        eqv_question(&mut hs, vec![a]),
        Err(LispError::ArgCount { procedure: Procedure::EqvQuestion, found: 1 })
    ));
}

#[test]
fn eq_question_over_all_arguments() {
    let mut hs = session();
    assert_eq!(eq_question(&mut hs, vec![]).unwrap(), Value::Bool(true));
    assert_eq!(
        eq_question(&mut hs, vec![Value::Int(2), Value::Int(2), Value::Int(2)]).unwrap(),
        Value::Bool(true)
    );
    assert_eq!(
        eq_question(&mut hs, vec![Value::Int(2), Value::Int(2), Value::Int(3)]).unwrap(),
        Value::Bool(false)
    );
}

#[test]
fn assert_outcomes() {
    let mut hs = session();
    assert_eq!(lisp_assert(&mut hs, vec![Value::Bool(true)]).unwrap(), Value::Nil);
    assert!(matches!(
        lisp_assert(&mut hs, vec![Value::Bool(false)]),
        Err(LispError::AssertionFailed(None))
    ));
    match lisp_assert(&mut hs, vec![Value::Bool(false), Value::Str("boom".to_string())]) {
        Err(LispError::AssertionFailed(Some(m))) => assert_eq!(m, Value::Str("boom".to_string())),
        other => panic!("unexpected {:?}", other),
    }
    assert!(matches!(
        lisp_assert(&mut hs, vec![Value::Int(1)]),
        Err(LispError::NotBoolean(Procedure::Assert))
    ));
    assert!(matches!(
        lisp_assert(&mut hs, vec![]),
        Err(LispError::ArgCount { procedure: Procedure::Assert, found: 0 })
    ));
}

#[test]
fn builtins_keep_pairs_alive_through_collect() {
    let mut hs = session();
    let list = cons(&mut hs, vec![Value::Int(1), Value::Nil]).unwrap();
    let list = cons(&mut hs, vec![Value::Int(0), list]).unwrap();
    let _garbage = cons(&mut hs, vec![Value::Int(9), Value::Nil]).unwrap();
    hs.collect(&vec![list.clone()]);
    assert_eq!(hs.pair_count(), 2);
    let rest = cdr(&mut hs, vec![list]).unwrap();
    assert_eq!(car(&mut hs, vec![rest]).unwrap(), Value::Int(1));
    let _ = Pair { car: Value::Nil, cdr: Value::Nil };
}

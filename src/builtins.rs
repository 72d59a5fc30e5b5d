//! Primitive procedures of the Lisp: predicates, pairs, arithmetic,
//! vectors and assertions. Each takes the session and its arguments as
//! plain values and returns a plain value or an error value.
use vstd::prelude::*;
use crate::heap::{GcHeapSession, HeapView};
use crate::value::{Pair, Value};

verus! {

/// The primitive procedures, as errors name them.
#[derive(Clone, Copy, Debug, PartialEq, Eq, Structural)]
pub enum Procedure {
    BooleanQuestion,
    EqvQuestion,
    PairQuestion,
    Cons,
    Car,
    Cdr,
    NullQuestion,
    Add,
    Mul,
    Sub,
    VectorQuestion,
    VectorLength,
    VectorRef,
    Assert,
}

/// What a primitive procedure reports instead of a value.
#[derive(Clone, Debug)]
pub enum LispError {
    /// The procedure got `found` arguments, a number it does not take.
    ArgCount { procedure: Procedure, found: usize },
    /// An argument that must be a pair was not.
    NotPair(Procedure),
    /// An argument that must be an integer was not.
    NotNumber(Procedure),
    /// An argument that must be a vector was not.
    NotVector(Procedure),
    /// An argument that must be a non-negative integer was not.
    NotIndex(Procedure),
    /// An argument that must be a boolean was not.
    NotBoolean(Procedure),
    /// The result does not fit in an integer.
    Overflow(Procedure),
    /// `index` is not below the vector's `length`.
    IndexOutOfBounds { index: usize, length: usize },
    /// An assertion was false; the message given with it, if any.
    AssertionFailed(Option<Value>),
}

/// Every value is valid in the heap.
pub open spec fn all_valid(h: HeapView, args: Seq<Value>) -> bool {
    forall|i: int| 0 <= i < args.len() ==> h.valid(#[trigger] args[i])
}

/// The arithmetic step of `procedure`.
pub open spec fn combine(procedure: Procedure, t: int, n: int) -> int {
    match procedure {
        Procedure::Add => t + n,
        Procedure::Mul => t * n,
        _ => t - n,
    }
}

/// Folds the arithmetic step of `procedure` over `args` from `start`, left
/// to right: the first non-integer, or the first step whose result does
/// not fit in an `i32`, is the error.
pub open spec fn fold_ints(args: Seq<Value>, start: i32, procedure: Procedure) -> Result<i32, LispError>
    decreases args.len(),
{
    if args.len() == 0 {
        Ok(start)
    } else {
        match fold_ints(args.drop_last(), start, procedure) {
            Err(e) => Err(e),
            Ok(t) => match args.last() {
                Value::Int(n) => {
                    let c = combine(procedure, t as int, n as int);
                    if i32::MIN <= c <= i32::MAX {
                        Ok(c as i32)
                    } else {
                        Err(LispError::Overflow(procedure))
                    }
                },
                _ => Err(LispError::NotNumber(procedure)),
            },
        }
    }
}

/// Once a prefix fails, the whole fold fails the same way.
proof fn lemma_fold_err(args: Seq<Value>, k: int, start: i32, procedure: Procedure)
    requires
        0 <= k <= args.len(),
        fold_ints(args.subrange(0, k), start, procedure) is Err,
    ensures
        fold_ints(args, start, procedure) == fold_ints(args.subrange(0, k), start, procedure),
    decreases args.len() - k,
{
    if k < args.len() {
        assert(args.subrange(0, k + 1).drop_last() =~= args.subrange(0, k));
        lemma_fold_err(args, k + 1, start, procedure);
    } else {
        assert(args.subrange(0, k) =~= args);
    }
}

/// One arithmetic step in `i32`, or `None` where the result does not fit.
fn step(procedure: Procedure, t: i32, n: i32) -> (r: Option<i32>)
    ensures
        r matches Some(v) ==> v as int == combine(procedure, t as int, n as int),
        r is None ==> !(i32::MIN <= combine(procedure, t as int, n as int) <= i32::MAX),
{
    match procedure {
        Procedure::Add => t.checked_add(n),
        Procedure::Mul => t.checked_mul(n),
        _ => t.checked_sub(n),
    }
}

/// Folds the arithmetic step of `procedure` over the arguments from
/// position `from` on.
fn fold_from(args: &Vec<Value>, from: usize, start: i32, procedure: Procedure) -> (r: Result<i32, LispError>)
    requires
        from <= args@.len(),
    ensures
        r == fold_ints(args@.subrange(from as int, args@.len() as int), start, procedure),
{
    let ghost rest = args@.subrange(from as int, args@.len() as int);
    let mut total: i32 = start;
    let mut i: usize = from;
    while i < args.len()
        invariant
            from <= i <= args@.len(),
            rest == args@.subrange(from as int, args@.len() as int),
            fold_ints(rest.subrange(0, i - from), start, procedure) == Ok::<i32, LispError>(total),
        decreases args@.len() - i,
    {
        let ghost k: int = i - from;
        assert(rest.subrange(0, k + 1).drop_last() =~= rest.subrange(0, k));
        assert(rest.subrange(0, k + 1).last() == args@[i as int]);
        match &args[i] {
            Value::Int(n) => match step(procedure, total, *n) {
                Some(t) => {
                    total = t;
                },
                None => {
                    proof {
                        lemma_fold_err(rest, k + 1, start, procedure);
                    }
                    return Err(LispError::Overflow(procedure));
                },
            },
            _ => {
                proof {
                    lemma_fold_err(rest, k + 1, start, procedure);
                }
                return Err(LispError::NotNumber(procedure));
            },
        }
        i = i + 1;
    }
    assert(rest.subrange(0, i - from) =~= rest);
    Ok(total)
}

/// Applies a one-argument test: its result as a boolean value, or an
/// error unless there is exactly one argument.
fn simple_predicate<F: FnOnce(Value) -> bool>(procedure: Procedure, mut args: Vec<Value>, f: F) -> (r: Result<
    Value,
    LispError,
>)
    requires
        args@.len() == 1 ==> f.requires((args@[0],)),
    ensures
        args@.len() != 1 ==> r == Err::<Value, LispError>(
            LispError::ArgCount { procedure, found: args@.len() as usize },
        ),
        args@.len() == 1 ==> exists|b: bool| f.ensures((args@[0],), b) && r == Ok::<Value, LispError>(Value::Bool(b)),
{
    if args.len() != 1 {
        return Err(LispError::ArgCount { procedure, found: args.len() });
    }
    let v = args.pop().unwrap();
    proof {
        assert(args@.len() == 0);
    }
    let b = f(v);
    Ok(Value::Bool(b))
}

/// `boolean?`: whether the one argument is a boolean.
pub fn boolean_question(hs: &mut GcHeapSession, args: Vec<Value>) -> (r: Result<Value, LispError>)
    ensures
        *final(hs) == *old(hs),
        r == if args@.len() == 1 {
            Ok::<Value, LispError>(Value::Bool(args@[0] is Bool))
        } else {
            Err(LispError::ArgCount { procedure: Procedure::BooleanQuestion, found: args@.len() as usize })
        },
{
    simple_predicate(Procedure::BooleanQuestion, args, |v: Value| -> (b: bool) ensures b == (v is Bool) { v.is_boolean() })
}

/// `eq?`: whether every argument is the same as the first, pairs and
/// vectors by handle, atoms and strings by value. True of no arguments.
pub fn eq_question(hs: &mut GcHeapSession, args: Vec<Value>) -> (r: Result<Value, LispError>)
    ensures
        *final(hs) == *old(hs),
        r == Ok::<Value, LispError>(
            Value::Bool(forall|i: int| 0 <= i < args@.len() ==> (#[trigger] args@[i]).spec_eqv(args@[0])),
        ),
{
    let mut all = true;
    let mut i: usize = 0;
    while i < args.len()
        invariant
            i <= args@.len(),
            all == forall|j: int| 0 <= j < i ==> (#[trigger] args@[j]).spec_eqv(args@[0]),
        decreases args@.len() - i,
    {
        if !(args[i] == args[0]) {
            all = false;
        }
        i = i + 1;
    }
    Ok(Value::Bool(all))
}

/// `eqv?`: whether the two arguments are the same, pairs and vectors by
/// handle, atoms and strings by value.
pub fn eqv_question(hs: &mut GcHeapSession, args: Vec<Value>) -> (r: Result<Value, LispError>)
    ensures
        *final(hs) == *old(hs),
        r == if args@.len() == 2 {
            Ok::<Value, LispError>(Value::Bool(args@[0].spec_eqv(args@[1])))
        } else {
            Err(LispError::ArgCount { procedure: Procedure::EqvQuestion, found: args@.len() as usize })
        },
{
    if args.len() != 2 {
        return Err(LispError::ArgCount { procedure: Procedure::EqvQuestion, found: args.len() });
    }
    Ok(Value::Bool(args[0].eqv(&args[1])))
}

/// `pair?`: whether the one argument is a pair.
pub fn pair_question(hs: &mut GcHeapSession, args: Vec<Value>) -> (r: Result<Value, LispError>)
    ensures
        *final(hs) == *old(hs),
        r == if args@.len() == 1 {
            Ok::<Value, LispError>(Value::Bool(args@[0] is Cons))
        } else {
            Err(LispError::ArgCount { procedure: Procedure::PairQuestion, found: args@.len() as usize })
        },
{
    simple_predicate(Procedure::PairQuestion, args, |v: Value| -> (b: bool) ensures b == (v is Cons) { v.is_pair() })
}

/// `cons`: allocates a pair of the two arguments.
pub fn cons(hs: &mut GcHeapSession, mut args: Vec<Value>) -> (r: Result<Value, LispError>)
    requires
        old(hs).wf(),
        all_valid(old(hs)@, args@),
    ensures
        final(hs).wf(),
        args@.len() != 2 ==> *final(hs) == *old(hs) && r == Err::<Value, LispError>(
            LispError::ArgCount { procedure: Procedure::Cons, found: args@.len() as usize },
        ),
        args@.len() == 2 ==> (r matches Ok(Value::Cons(p)) && old(hs)@.pair_allocated(
            Pair { car: args@[0], cdr: args@[1] },
            final(hs)@,
            p,
        )),
{
    if args.len() != 2 {
        return Err(LispError::ArgCount { procedure: Procedure::Cons, found: args.len() });
    }
    let ghost a = args@;
    let cdr = args.pop().unwrap();
    let car = args.pop().unwrap();
    proof {
        assert(old(hs)@.valid(a[0]));
        assert(old(hs)@.valid(a[1]));
    }
    let pair = hs.alloc_pair(Pair { car, cdr });
    Ok(Value::Cons(pair))
}

/// `car`: the first field of the one argument, which must be a pair.
pub fn car(hs: &mut GcHeapSession, args: Vec<Value>) -> (r: Result<Value, LispError>)
    requires
        old(hs).wf(),
        all_valid(old(hs)@, args@),
    ensures
        *final(hs) == *old(hs),
        r == if args@.len() != 1 {
            Err::<Value, LispError>(LispError::ArgCount { procedure: Procedure::Car, found: args@.len() as usize })
        } else {
            match args@[0] {
                Value::Cons(p) => Ok(old(hs)@.car(p)),
                _ => Err(LispError::NotPair(Procedure::Car)),
            }
        },
        r matches Ok(v) ==> final(hs)@.valid(v),
{
    if args.len() != 1 {
        return Err(LispError::ArgCount { procedure: Procedure::Car, found: args.len() });
    }
    match &args[0] {
        Value::Cons(p) => {
            proof {
                assert(hs@.valid(args@[0]));
                hs.lemma_closed();
                hs@.lemma_fields_valid(*p);
            }
            Ok(hs.car(*p))
        },
        _ => Err(LispError::NotPair(Procedure::Car)),
    }
}

/// `cdr`: the second field of the one argument, which must be a pair.
pub fn cdr(hs: &mut GcHeapSession, args: Vec<Value>) -> (r: Result<Value, LispError>)
    requires
        old(hs).wf(),
        all_valid(old(hs)@, args@),
    ensures
        *final(hs) == *old(hs),
        r == if args@.len() != 1 {
            Err::<Value, LispError>(LispError::ArgCount { procedure: Procedure::Cdr, found: args@.len() as usize })
        } else {
            match args@[0] {
                Value::Cons(p) => Ok(old(hs)@.cdr(p)),
                _ => Err(LispError::NotPair(Procedure::Cdr)),
            }
        },
        r matches Ok(v) ==> final(hs)@.valid(v),
{
    if args.len() != 1 {
        return Err(LispError::ArgCount { procedure: Procedure::Cdr, found: args.len() });
    }
    match &args[0] {
        Value::Cons(p) => {
            proof {
                assert(hs@.valid(args@[0]));
                hs.lemma_closed();
                hs@.lemma_fields_valid(*p);
            }
            Ok(hs.cdr(*p))
        },
        _ => Err(LispError::NotPair(Procedure::Cdr)),
    }
}

/// `null?`: whether the one argument is the empty list.
pub fn null_question(hs: &mut GcHeapSession, args: Vec<Value>) -> (r: Result<Value, LispError>)
    ensures
        *final(hs) == *old(hs),
        r == if args@.len() == 1 {
            Ok::<Value, LispError>(Value::Bool(args@[0] is Nil))
        } else {
            Err(LispError::ArgCount { procedure: Procedure::NullQuestion, found: args@.len() as usize })
        },
{
    simple_predicate(Procedure::NullQuestion, args, |v: Value| -> (b: bool) ensures b == (v is Nil) { v.is_nil() })
}

/// `+`: the sum of the arguments, which must be integers; 0 for none.
pub fn add(hs: &mut GcHeapSession, args: Vec<Value>) -> (r: Result<Value, LispError>)
    ensures
        *final(hs) == *old(hs),
        r == match fold_ints(args@, 0, Procedure::Add) {
            Ok(t) => Ok::<Value, LispError>(Value::Int(t)),
            Err(e) => Err(e),
        },
{
    assert(args@.subrange(0, args@.len() as int) =~= args@);
    match fold_from(&args, 0, 0, Procedure::Add) {
        Ok(t) => Ok(Value::Int(t)),
        Err(e) => Err(e),
    }
}

/// `*`: the product of the arguments, which must be integers; 1 for none.
pub fn mul(hs: &mut GcHeapSession, args: Vec<Value>) -> (r: Result<Value, LispError>)
    ensures
        *final(hs) == *old(hs),
        r == match fold_ints(args@, 1, Procedure::Mul) {
            Ok(t) => Ok::<Value, LispError>(Value::Int(t)),
            Err(e) => Err(e),
        },
{
    assert(args@.subrange(0, args@.len() as int) =~= args@);
    match fold_from(&args, 0, 1, Procedure::Mul) {
        Ok(t) => Ok(Value::Int(t)),
        Err(e) => Err(e),
    }
}

/// `-`: the negation of a single argument, or the first argument minus
/// the rest; all must be integers, and there must be at least one.
pub fn sub(hs: &mut GcHeapSession, args: Vec<Value>) -> (r: Result<Value, LispError>)
    ensures
        *final(hs) == *old(hs),
        r == if args@.len() == 0 {
            Err::<Value, LispError>(LispError::ArgCount { procedure: Procedure::Sub, found: 0 })
        } else {
            match args@[0] {
                Value::Int(n) => if args@.len() == 1 {
                    if n == i32::MIN {
                        Err(LispError::Overflow(Procedure::Sub))
                    } else {
                        Ok(Value::Int((-n) as i32))
                    }
                } else {
                    match fold_ints(args@.drop_first(), n, Procedure::Sub) {
                        Ok(t) => Ok(Value::Int(t)),
                        Err(e) => Err(e),
                    }
                },
                _ => Err(LispError::NotNumber(Procedure::Sub)),
            }
        },
{
    if args.len() == 0 {
        return Err(LispError::ArgCount { procedure: Procedure::Sub, found: 0 });
    }
    let first = match &args[0] {
        Value::Int(n) => *n,
        _ => {
            return Err(LispError::NotNumber(Procedure::Sub));
        },
    };
    if args.len() == 1 {
        if first == i32::MIN {
            return Err(LispError::Overflow(Procedure::Sub));
        }
        return Ok(Value::Int(-first));
    }
    assert(args@.subrange(1, args@.len() as int) =~= args@.drop_first());
    match fold_from(&args, 1, first, Procedure::Sub) {
        Ok(t) => Ok(Value::Int(t)),
        Err(e) => Err(e),
    }
}

/// `vector?`: whether the one argument is a vector.
pub fn vector_question(hs: &mut GcHeapSession, args: Vec<Value>) -> (r: Result<Value, LispError>)
    ensures
        *final(hs) == *old(hs),
        r == if args@.len() == 1 {
            Ok::<Value, LispError>(Value::Bool(args@[0] is Vector))
        } else {
            Err(LispError::ArgCount { procedure: Procedure::VectorQuestion, found: args@.len() as usize })
        },
{
    simple_predicate(Procedure::VectorQuestion, args, |v: Value| -> (b: bool) ensures b == (v is Vector) { v.is_vector() })
}

/// `vector`: allocates a vector of the arguments.
pub fn vector(hs: &mut GcHeapSession, args: Vec<Value>) -> (r: Result<Value, LispError>)
    requires
        old(hs).wf(),
        all_valid(old(hs)@, args@),
    ensures
        final(hs).wf(),
        r matches Ok(Value::Vector(v)) && old(hs)@.vector_allocated(args@, final(hs)@, v),
{
    Ok(Value::Vector(hs.alloc_vector(args)))
}

/// `vector-length`: the number of elements of the one argument, which
/// must be a vector.
pub fn vector_length(hs: &mut GcHeapSession, mut args: Vec<Value>) -> (r: Result<Value, LispError>)
    requires
        old(hs).wf(),
        all_valid(old(hs)@, args@),
    ensures
        *final(hs) == *old(hs),
        r == if args@.len() != 1 {
            Err::<Value, LispError>(
                LispError::ArgCount { procedure: Procedure::VectorLength, found: args@.len() as usize },
            )
        } else {
            match args@[0] {
                Value::Vector(v) => if old(hs)@.elements(v).len() <= i32::MAX {
                    Ok(Value::Int(old(hs)@.elements(v).len() as i32))
                } else {
                    Err(LispError::Overflow(Procedure::VectorLength))
                },
                _ => Err(LispError::NotVector(Procedure::VectorLength)),
            }
        },
{
    if args.len() != 1 {
        return Err(LispError::ArgCount { procedure: Procedure::VectorLength, found: args.len() });
    }
    let ghost a = args@;
    let arg = args.pop().unwrap();
    proof {
        assert(arg == a[0]);
        assert(hs@.valid(a[0]));
    }
    match arg {
        Value::Vector(v) => {
            let n = hs.vector_len(v);
            if n > 2147483647 {
                return Err(LispError::Overflow(Procedure::VectorLength));
            }
            Ok(Value::Int(n as i32))
        },
        _ => Err(LispError::NotVector(Procedure::VectorLength)),
    }
}

/// `vector-ref`: the element of the first argument, a vector, at the
/// second, a non-negative integer below its length.
pub fn vector_ref(hs: &mut GcHeapSession, mut args: Vec<Value>) -> (r: Result<Value, LispError>)
    requires
        old(hs).wf(),
        all_valid(old(hs)@, args@),
    ensures
        *final(hs) == *old(hs),
        r == if args@.len() != 2 {
            Err::<Value, LispError>(
                LispError::ArgCount { procedure: Procedure::VectorRef, found: args@.len() as usize },
            )
        } else {
            match args@[1] {
                Value::Int(i) if i >= 0 => match args@[0] {
                    Value::Vector(v) => if (i as int) < old(hs)@.elements(v).len() {
                        Ok(old(hs)@.elements(v)[i as int])
                    } else {
                        Err(
                            LispError::IndexOutOfBounds {
                                index: i as usize,
                                length: old(hs)@.elements(v).len() as usize,
                            },
                        )
                    },
                    _ => Err(LispError::NotVector(Procedure::VectorRef)),
                },
                _ => Err(LispError::NotIndex(Procedure::VectorRef)),
            }
        },
        r matches Ok(v) ==> final(hs)@.valid(v),
{
    if args.len() != 2 {
        return Err(LispError::ArgCount { procedure: Procedure::VectorRef, found: args.len() });
    }
    let ghost a = args@;
    let second = args.pop().unwrap();
    let first = args.pop().unwrap();
    proof {
        assert(first == a[0] && second == a[1]);
        assert(hs@.valid(a[0]));
    }
    let index = match second {
        Value::Int(i) if i >= 0 => i as usize,
        _ => {
            return Err(LispError::NotIndex(Procedure::VectorRef));
        },
    };
    match first {
        Value::Vector(v) => {
            let n = hs.vector_len(v);
            if index >= n {
                return Err(LispError::IndexOutOfBounds { index, length: n });
            }
            proof {
                hs.lemma_closed();
                hs@.lemma_elements_valid(v, index as int);
            }
            Ok(hs.vector_get(v, index))
        },
        _ => Err(LispError::NotVector(Procedure::VectorRef)),
    }
}

/// `assert`: nothing when the first argument is true; an assertion
/// failure, with the second argument as its message if there is one, when
/// it is false.
pub fn lisp_assert(hs: &mut GcHeapSession, args: Vec<Value>) -> (r: Result<Value, LispError>)
    ensures
        *final(hs) == *old(hs),
        r == if args@.len() < 1 || args@.len() > 2 {
            Err::<Value, LispError>(LispError::ArgCount { procedure: Procedure::Assert, found: args@.len() as usize })
        } else {
            match args@[0] {
                Value::Bool(true) => Ok(Value::Nil),
                Value::Bool(false) => Err(
                    LispError::AssertionFailed(if args@.len() == 2 { Some(args@[1]) } else { None }),
                ),
                _ => Err(LispError::NotBoolean(Procedure::Assert)),
            }
        },
{
    if args.len() < 1 || args.len() > 2 {
        return Err(LispError::ArgCount { procedure: Procedure::Assert, found: args.len() });
    }
    match &args[0] {
        Value::Bool(true) => Ok(Value::Nil),
        Value::Bool(false) => {
            if args.len() == 2 {
                Err(LispError::AssertionFailed(Some(args[1].duplicate())))
            } else {
                Err(LispError::AssertionFailed(None))
            }
        },
        _ => Err(LispError::NotBoolean(Procedure::Assert)),
    }
}

} // verus!

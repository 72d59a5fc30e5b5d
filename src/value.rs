//! Values in their two forms: the plain form that programs hold, where
//! references are typed handles, and the storage form kept in the heap,
//! where references are bare slot addresses.
use vstd::prelude::*;

verus! {

/// A handle to a pair in the heap: the scope token of the session that
/// produced it and the pair's slot in the pair pool.
#[derive(Clone, Copy, Debug, PartialEq, Eq, Structural)]
pub struct PairRef {
    pub token: u64,
    pub index: usize,
}

/// A handle to a vector in the heap: the scope token of the session that
/// produced it and the vector's slot in the vector pool.
#[derive(Clone, Copy, Debug, PartialEq, Eq, Structural)]
pub struct VectorRef {
    pub token: u64,
    pub index: usize,
}

/// An untyped heap address: a pool and a slot in it.
#[derive(Clone, Copy, Debug, PartialEq, Eq, Structural)]
pub enum Addr {
    Pair(usize),
    Vector(usize),
}

/// A value in its plain form.
#[derive(Clone, Debug)]
pub enum Value {
    Nil,
    Bool(bool),
    Int(i32),
    Str(String),
    Cons(PairRef),
    Vector(VectorRef),
}

/// A value in its storage form: handles become bare addresses.
#[derive(Clone, Debug)]
pub enum ValueStorage {
    Nil,
    Bool(bool),
    Int(i32),
    Str(String),
    Pair(usize),
    Vector(usize),
}

/// A pair in its plain form.
#[derive(Clone, Debug)]
pub struct Pair {
    pub car: Value,
    pub cdr: Value,
}

/// A pair in its storage form.
#[derive(Clone, Debug)]
pub struct PairStorage {
    pub car: ValueStorage,
    pub cdr: ValueStorage,
}

impl Value {
    /// Every handle in the value carries `token`.
    pub open spec fn scoped(self, token: u64) -> bool {
        match self {
            Value::Cons(r) => r.token == token,
            Value::Vector(r) => r.token == token,
            _ => true,
        }
    }

    /// The storage form of the value.
    pub open spec fn spec_to_storage(self) -> ValueStorage {
        match self {
            Value::Nil => ValueStorage::Nil,
            Value::Bool(b) => ValueStorage::Bool(b),
            Value::Int(n) => ValueStorage::Int(n),
            Value::Str(s) => ValueStorage::Str(s),
            Value::Cons(r) => ValueStorage::Pair(r.index),
            Value::Vector(r) => ValueStorage::Vector(r.index),
        }
    }

    /// The heap address the value refers to, if it is a handle.
    pub open spec fn spec_addr(self) -> Option<Addr> {
        match self {
            Value::Cons(r) => Some(Addr::Pair(r.index)),
            Value::Vector(r) => Some(Addr::Vector(r.index)),
            _ => None,
        }
    }

    /// Equivalence in the sense of `eqv?`: the same variant, equal payloads
    /// for atoms and strings, and the same handle for pairs and vectors.
    pub open spec fn spec_eqv(self, other: Value) -> bool {
        match (self, other) {
            (Value::Nil, Value::Nil) => true,
            (Value::Bool(a), Value::Bool(b)) => a == b,
            (Value::Int(a), Value::Int(b)) => a == b,
            (Value::Str(a), Value::Str(b)) => a@ == b@,
            (Value::Cons(a), Value::Cons(b)) => a == b,
            (Value::Vector(a), Value::Vector(b)) => a == b,
            _ => false,
        }
    }

    /// Converts the value to its storage form: handles lose their token and
    /// keep their slot, everything else passes through.
    pub fn to_storage(&self) -> (r: ValueStorage)
        ensures
            r == self.spec_to_storage(),
            r.spec_addr() == self.spec_addr(),
    {
        match self {
            Value::Nil => ValueStorage::Nil,
            Value::Bool(b) => ValueStorage::Bool(*b),
            Value::Int(n) => ValueStorage::Int(*n),
            Value::Str(s) => ValueStorage::Str(s.clone()),
            Value::Cons(r) => ValueStorage::Pair(r.index),
            Value::Vector(r) => ValueStorage::Vector(r.index),
        }
    }

    /// Converting a value whose handles carry `token` to storage and back
    /// under `token` gives the value again.
    pub proof fn lemma_round_trip(self, token: u64)
        requires
            self.scoped(token),
        ensures
            self.spec_to_storage().spec_from_storage(token) == self,
            self.spec_to_storage().spec_addr() == self.spec_addr(),
    {
    }

    /// A copy of the value.
    pub fn duplicate(&self) -> (r: Value)
        ensures
            r == *self,
    {
        match self {
            Value::Nil => Value::Nil,
            Value::Bool(b) => Value::Bool(*b),
            Value::Int(n) => Value::Int(*n),
            Value::Str(s) => Value::Str(s.clone()),
            Value::Cons(r) => Value::Cons(*r),
            Value::Vector(r) => Value::Vector(*r),
        }
    }

    /// The heap address the value refers to, if it is a handle.
    pub fn addr(&self) -> (r: Option<Addr>)
        ensures
            r == self.spec_addr(),
    {
        match self {
            Value::Cons(r) => Some(Addr::Pair(r.index)),
            Value::Vector(r) => Some(Addr::Vector(r.index)),
            _ => None,
        }
    }

    /// `eqv?` on two values.
    pub fn eqv(&self, other: &Value) -> (r: bool)
        ensures
            r == self.spec_eqv(*other),
    {
        match (self, other) {
            (Value::Nil, Value::Nil) => true,
            (Value::Bool(a), Value::Bool(b)) => *a == *b,
            (Value::Int(a), Value::Int(b)) => *a == *b,
            (Value::Str(a), Value::Str(b)) => a.eq(b),
            (Value::Cons(a), Value::Cons(b)) => *a == *b,
            (Value::Vector(a), Value::Vector(b)) => *a == *b,
            _ => false,
        }
    }

    /// Whether the value is the empty list.
    pub fn is_nil(&self) -> (r: bool)
        ensures
            r == (*self is Nil),
    {
        matches!(self, Value::Nil)
    }

    /// Whether the value is a boolean.
    pub fn is_boolean(&self) -> (r: bool)
        ensures
            r == (*self is Bool),
    {
        matches!(self, Value::Bool(_))
    }

    /// Whether the value is a pair.
    pub fn is_pair(&self) -> (r: bool)
        ensures
            r == (*self is Cons),
    {
        matches!(self, Value::Cons(_))
    }

    /// Whether the value is a vector.
    pub fn is_vector(&self) -> (r: bool)
        ensures
            r == (*self is Vector),
    {
        matches!(self, Value::Vector(_))
    }
}

impl PartialEq for Value {
    fn eq(&self, other: &Value) -> (r: bool) {
        self.eqv(other)
    }
}

impl vstd::std_specs::cmp::PartialEqSpecImpl for Value {
    open spec fn obeys_eq_spec() -> bool {
        true
    }

    open spec fn eq_spec(&self, other: &Value) -> bool {
        self.spec_eqv(*other)
    }
}

impl ValueStorage {
    /// The plain form of a stored value, with every address paired with
    /// `token`.
    pub open spec fn spec_from_storage(self, token: u64) -> Value {
        match self {
            ValueStorage::Nil => Value::Nil,
            ValueStorage::Bool(b) => Value::Bool(b),
            ValueStorage::Int(n) => Value::Int(n),
            ValueStorage::Str(s) => Value::Str(s),
            ValueStorage::Pair(i) => Value::Cons(PairRef { token, index: i }),
            ValueStorage::Vector(i) => Value::Vector(VectorRef { token, index: i }),
        }
    }

    /// The address that a stored value refers to, if any.
    pub open spec fn spec_addr(self) -> Option<Addr> {
        match self {
            ValueStorage::Pair(i) => Some(Addr::Pair(i)),
            ValueStorage::Vector(i) => Some(Addr::Vector(i)),
            _ => None,
        }
    }

    /// Converts a stored value to its plain form under the current scope
    /// token.
    pub fn from_storage(&self, token: u64) -> (r: Value)
        ensures
            r == self.spec_from_storage(token),
            r.scoped(token),
    {
        match self {
            ValueStorage::Nil => Value::Nil,
            ValueStorage::Bool(b) => Value::Bool(*b),
            ValueStorage::Int(n) => Value::Int(*n),
            ValueStorage::Str(s) => Value::Str(s.clone()),
            ValueStorage::Pair(i) => Value::Cons(PairRef { token, index: *i }),
            ValueStorage::Vector(i) => Value::Vector(VectorRef { token, index: *i }),
        }
    }

    /// A copy of the stored value.
    pub fn duplicate(&self) -> (r: ValueStorage)
        ensures
            r == *self,
    {
        match self {
            ValueStorage::Nil => ValueStorage::Nil,
            ValueStorage::Bool(b) => ValueStorage::Bool(*b),
            ValueStorage::Int(n) => ValueStorage::Int(*n),
            ValueStorage::Str(s) => ValueStorage::Str(s.clone()),
            ValueStorage::Pair(i) => ValueStorage::Pair(*i),
            ValueStorage::Vector(i) => ValueStorage::Vector(*i),
        }
    }

    /// The tracing rule of a stored value: the one address it refers to,
    /// if it is a reference.
    pub fn addr(&self) -> (r: Option<Addr>)
        ensures
            r == self.spec_addr(),
    {
        match self {
            ValueStorage::Pair(i) => Some(Addr::Pair(*i)),
            ValueStorage::Vector(i) => Some(Addr::Vector(*i)),
            _ => None,
        }
    }
}

/// Converting a sequence of values whose handles carry `token` to storage
/// and back under `token`, element by element, gives the sequence again.
pub proof fn lemma_vector_round_trip(elems: Seq<Value>, token: u64)
    requires
        forall|j: int| 0 <= j < elems.len() ==> (#[trigger] elems[j]).scoped(token),
    ensures
        elems.map_values(|v: Value| v.spec_to_storage()).map_values(
            |s: ValueStorage| s.spec_from_storage(token),
        ) == elems,
{
    let back = elems.map_values(|v: Value| v.spec_to_storage()).map_values(
        |s: ValueStorage| s.spec_from_storage(token),
    );
    assert forall|j: int| 0 <= j < elems.len() implies #[trigger] back[j] == elems[j] by {
        elems[j].lemma_round_trip(token);
    }
    assert(back =~= elems);
}

impl Pair {
    /// Every handle in the pair's fields carries `token`.
    pub open spec fn scoped(self, token: u64) -> bool {
        self.car.scoped(token) && self.cdr.scoped(token)
    }

    /// The storage form of the pair, field by field.
    pub open spec fn spec_to_storage(self) -> PairStorage {
        PairStorage { car: self.car.spec_to_storage(), cdr: self.cdr.spec_to_storage() }
    }

    /// Converts the pair to its storage form, field by field.
    pub fn to_storage(&self) -> (r: PairStorage)
        ensures
            r == self.spec_to_storage(),
    {
        PairStorage { car: self.car.to_storage(), cdr: self.cdr.to_storage() }
    }

    /// Converting a pair whose handles carry `token` to storage and back
    /// under `token` gives the pair again.
    pub proof fn lemma_round_trip(self, token: u64)
        requires
            self.scoped(token),
        ensures
            self.spec_to_storage().spec_from_storage(token) == self,
    {
        self.car.lemma_round_trip(token);
        self.cdr.lemma_round_trip(token);
    }
}

impl PairStorage {
    /// The plain form of a stored pair under `token`, field by field.
    pub open spec fn spec_from_storage(self, token: u64) -> Pair {
        Pair { car: self.car.spec_from_storage(token), cdr: self.cdr.spec_from_storage(token) }
    }

    /// Converts a stored pair to its plain form, field by field.
    pub fn from_storage(&self, token: u64) -> (r: Pair)
        ensures
            r == self.spec_from_storage(token),
            r.scoped(token),
    {
        Pair { car: self.car.from_storage(token), cdr: self.cdr.from_storage(token) }
    }
}

} // verus!
